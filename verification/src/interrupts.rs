//! The exception vector table and the breakpoint trap.
//!
//! The table is described here as a plain value, one optional handler for
//! each of the 256 vectors. Turning the description into the structure that
//! the processor reads, and loading it, is left to the caller, which alone
//! can name a handler with the trap calling convention.

use vstd::prelude::*;
use vstd::string::StringSliceAdditionalSpecFns;
use crate::screen::NEWLINE;
use crate::screen_laws::lemma_write_string_concat;
use crate::vga_buffer::Writer;

verus! {

/// Number of vectors in the table.
pub const VECTOR_COUNT: usize = 256;

/// The vector of the breakpoint trap.
pub const BREAKPOINT_VECTOR: u8 = 3;

/// A vector table: for each vector the handler bound to it, if any. It is
/// filled once, by [`init_idt`], and cannot be changed afterwards.
pub struct ExceptionTable<H> {
    entries: Vec<Option<H>>,
}

impl<H> View for ExceptionTable<H> {
    type V = Seq<Option<H>>;

    /// The entries by vector number.
    closed spec fn view(&self) -> Seq<Option<H>> {
        self.entries@
    }
}

impl<H> ExceptionTable<H> {
    /// The table has one entry for each vector.
    #[verifier::type_invariant]
    spec fn complete(self) -> bool {
        self.entries@.len() == VECTOR_COUNT
    }
}

impl<H: Copy> ExceptionTable<H> {
    /// The handler bound to `vector`, or `None` if the vector is unbound.
    pub fn handler(&self, vector: u8) -> (handler: Option<H>)
        ensures
            self@.len() == VECTOR_COUNT,
            handler == self@[vector as int],
    {
        proof {
            use_type_invariant(self);
        }
        self.entries[vector as usize]
    }
}

/// Builds the vector table: the breakpoint vector is bound to
/// `breakpoint_handler`, and every other vector is left unbound.
pub fn init_idt<H: Copy>(breakpoint_handler: H) -> (table: ExceptionTable<H>)
    ensures
        table@.len() == VECTOR_COUNT,
        table@[BREAKPOINT_VECTOR as int] == Some(breakpoint_handler),
        forall|vector: int|
            0 <= vector < VECTOR_COUNT && vector != BREAKPOINT_VECTOR ==> table@[vector] == None::<
                H,
            >,
{
    let mut entries: Vec<Option<H>> = Vec::new();
    for vector in 0..VECTOR_COUNT
        invariant
            entries@.len() == vector,
            forall|i: int|
                0 <= i < vector ==> #[trigger] entries@[i] == if i == BREAKPOINT_VECTOR {
                    Some(breakpoint_handler)
                } else {
                    None
                },
    {
        if vector == BREAKPOINT_VECTOR as usize {
            entries.push(Some(breakpoint_handler));
        } else {
            entries.push(None);
        }
    }
    ExceptionTable { entries }
}

/// The heading of a breakpoint report: `EXCEPTION - BREAKPOINT:` and a
/// newline.
pub open spec fn breakpoint_banner() -> Seq<u8> {
    seq![
        0x45u8, 0x58, 0x43, 0x45, 0x50, 0x54, 0x49, 0x4f, 0x4e, 0x20, 0x2d, 0x20, 0x42, 0x52, 0x45,
        0x41, 0x4b, 0x50, 0x4f, 0x49, 0x4e, 0x54, 0x3a, 0x0a,
    ]
}

/// The text of a breakpoint report: the heading, the description of the
/// interrupted frame, and a newline.
pub open spec fn breakpoint_report(stack_frame: Seq<u8>) -> Seq<u8> {
    breakpoint_banner() + stack_frame + seq![NEWLINE]
}

/// What the breakpoint trap does with the console: it writes the report for
/// the interrupted frame, described by `stack_frame`, and returns, so that
/// the interrupted code goes on.
pub fn breakpoint_handler(console: &mut Writer, stack_frame: &str)
    ensures
        final(console)@ == old(console)@.write_string(
            breakpoint_report(stack_frame.spec_bytes()),
        ),
        old(console)@.wf() ==> final(console)@.wf(),
{
    let banner = "EXCEPTION - BREAKPOINT:\n";
    let newline = "\n";
    proof {
        reveal_strlit("EXCEPTION - BREAKPOINT:\n");
        reveal_strlit("\n");
        vstd::string::is_ascii_spec_bytes(banner);
        vstd::string::is_ascii_spec_bytes(newline);
        assert(banner.spec_bytes() =~= breakpoint_banner());
        assert(newline.spec_bytes() =~= seq![NEWLINE]);
        lemma_write_string_concat(
            old(console)@,
            breakpoint_banner() + stack_frame.spec_bytes(),
            seq![NEWLINE],
        );
        lemma_write_string_concat(old(console)@, breakpoint_banner(), stack_frame.spec_bytes());
    }
    console.write_string(banner);
    console.write_string(stack_frame);
    console.write_string(newline);
}

} // verus!
