//! The cell hierarchy. A cell is a 64-bit index; what the indexing library
//! computes of it is reached through the functions of this module. Their
//! contracts are not proved: each states what the library's source shows.

use vstd::prelude::*;
use h3ron::{H3Cell, Index};

verus! {

/// The resolution that the index `h` carries: bits 52 to 55.
pub open spec fn resolution_of(h: u64) -> u8 {
    ((h >> 52) & 0xf) as u8
}

/// No index carries a resolution beyond 15.
pub proof fn lemma_resolution_range(h: u64)
    ensures
        resolution_of(h) <= 15,
{
    assert(((h >> 52) & 0xf) <= 15) by (bit_vector);
}

/// The index of the ancestor of `h` at resolution `r`: the resolution bits
/// hold `r`, and every digit finer than `r` that `h` uses is set to 7.
pub open spec fn parent_of(h: u64, r: u8) -> u64 {
    let res = resolution_of(h);
    if r >= res {
        h
    } else {
        let coarser = (h & !(0xfu64 << 52)) | ((r as u64) << 52);
        let unused = (((1u64 << ((3 * (res - r)) as u64)) - 1) as u64) << ((3 * (15 - res)) as u64);
        coarser | unused
    }
}

/// The ancestor at resolution `r` carries the resolution `r`.
pub proof fn lemma_parent_resolution(h: u64, r: u8)
    requires
        r <= resolution_of(h),
    ensures
        resolution_of(parent_of(h, r)) == r,
{
    let res = resolution_of(h);
    lemma_resolution_range(h);
    if r < res {
        let r64 = r as u64;
        let width = (3 * (res - r)) as u64;
        let low = (3 * (15 - res)) as u64;
        assert(width + low <= 45);
        assert((((((h & !(0xfu64 << 52)) | (r64 << 52)) | ((((1u64 << width) - 1) as u64) << low))
            >> 52) & 0xf) == r64) by (bit_vector)
            requires
                r64 <= 15,
                width + low <= 45,
        ;
    }
}

/// The descendants of `h` at resolution `r`, in the order in which the
/// indexing library lists them.
pub uninterp spec fn children_of(h: u64, r: u8) -> Seq<u64>;

/// Whether `h` is the index of a cell.
pub uninterp spec fn is_valid_cell(h: u64) -> bool;

/// The cells within grid distance `k` of `h`, in the order in which the
/// indexing library lists them; `None` where it lists none for `h`.
pub uninterp spec fn grid_disk_of(h: u64, k: u32) -> Option<Seq<u64>>;

/// Trusted: `Index::resolution` of h3ron, which reads bits 52 to 55 of the index.
#[verifier::external_body]
pub(crate) fn cell_resolution(h: u64) -> (r: u8)
    ensures
        r == resolution_of(h),
{
    H3Cell::new(h).resolution()
}

/// Trusted: `Index::is_valid` of h3ron on `H3Cell`, a function of the index alone.
#[verifier::external_body]
pub(crate) fn cell_is_valid(h: u64) -> (b: bool)
    ensures
        b == is_valid_cell(h),
{
    H3Cell::new(h).is_valid()
}

/// Trusted: `H3Cell::get_parent` of h3ron. It fails (here: `None`) exactly
/// where `r` is finer than the resolution of `h`; otherwise it rewrites the
/// resolution bits and fills the digits that the ancestor does not use.
#[verifier::external_body]
pub(crate) fn cell_parent(h: u64, r: u8) -> (p: Option<u64>)
    ensures
        p is Some <==> r <= resolution_of(h),
        p is Some ==> p->0 == parent_of(h, r),
{
    match H3Cell::new(h).get_parent(r) {
        Ok(cell) => Some(cell.h3index()),
        Err(_) => None,
    }
}

/// Trusted: `H3Cell::get_children` of h3ron. It fails (here: `None`)
/// exactly where `r` is coarser than the resolution of `h` or finer than 15;
/// the cells it lists depend on `h` and `r` alone. The memory for the list
/// is taken to be there.
#[verifier::external_body]
pub(crate) fn cell_children(h: u64, r: u8) -> (c: Option<Vec<u64>>)
    ensures
        c is Some <==> resolution_of(h) <= r <= 15,
        c is Some ==> c->0@ == children_of(h, r),
{
    match H3Cell::new(h).get_children(r) {
        Ok(cells) => Some(cells.iter().map(|cell| cell.h3index()).collect()),
        Err(_) => None,
    }
}

/// Trusted: `H3Cell::grid_disk` of h3ron, for a small distance. Whether
/// it fails (here: `None`), and which cells it lists, depends on `h` and
/// `k` alone; nothing more is claimed of either.
#[verifier::external_body]
pub(crate) fn cell_grid_disk(h: u64, k: u32) -> (c: Option<Vec<u64>>)
    requires
        k <= 1024,
    ensures
        match c {
            Some(cells) => grid_disk_of(h, k) == Some(cells@),
            None => grid_disk_of(h, k) is None,
        },
{
    match H3Cell::new(h).grid_disk(k) {
        Ok(cells) => Some(cells.iter().map(|cell| cell.h3index()).collect()),
        Err(_) => None,
    }
}

} // verus!
