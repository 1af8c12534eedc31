//! The character grid as the display hardware sees it.
//!
//! A cell is one 16-bit word behind a [`Volatile`] wrapper, so that every load
//! and store reaches memory: the display controller reads the words behind the
//! program's back. The low byte of a word is the character code and the high
//! byte the color attribute, which on a little-endian machine places the
//! character at the lower address, as text mode expects.
//!
//! Verus does not look inside a [`Volatile`]. What a cell holds is named by
//! [`cell_bits`], and the two accessors below are believed, not proved.

use vstd::prelude::*;
use volatile::Volatile;

verus! {

/// Number of text rows on the screen.
pub const BUFFER_HEIGHT: usize = 25;

/// Number of text columns on the screen.
pub const BUFFER_WIDTH: usize = 80;

/// Physical address at which the hardware maps the text buffer.
pub const VGA_BUFFER_ADDRESS: usize = 0xb8000;

/// The grid of cells, row by row, in the layout of the hardware text buffer.
pub type Cells = [[Volatile<u16>; BUFFER_WIDTH]; BUFFER_HEIGHT];

/// `volatile::Volatile`, carried through verified code as an opaque value.
#[verifier::external_type_specification]
#[verifier::external_body]
#[verifier::reject_recursive_types(T)]
pub struct ExVolatile<T: Copy>(Volatile<T>);

/// The word that a cell holds: what `Volatile::read` would return for it.
pub uninterp spec fn cell_bits(cell: Volatile<u16>) -> u16;

/// `Volatile::read`: a volatile load of the wrapped word. The load returns the
/// word that the cell holds and leaves the cell as it is.
#[verifier::external_body]
pub(crate) fn read_cell(cell: &Volatile<u16>) -> (bits: u16)
    ensures
        bits == cell_bits(*cell),
{
    cell.read()
}

/// `Volatile::write`: a volatile store into the wrapped word. After the store
/// the cell holds `bits`.
#[verifier::external_body]
pub(crate) fn write_cell(cell: &mut Volatile<u16>, bits: u16)
    ensures
        cell_bits(*final(cell)) == bits,
{
    cell.write(bits)
}

} // verus!
