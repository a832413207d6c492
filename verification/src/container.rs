//! Parsed structural summary of a photo container.

use vstd::prelude::*;

verus! {

/// Which container format a descriptor was parsed from.
#[derive(Clone, Copy, Debug, PartialEq, Eq, Structural)]
pub enum FormatTag {
    Jpeg,
    Dng,
}

/// How an embedded preview's bytes are encoded.
#[derive(Clone, Copy, Debug, PartialEq, Eq, Structural)]
pub enum EncodingKind {
    Jpeg,
    Uncompressed,
}

/// One embedded preview discovered during parsing: a byte range in the
/// input buffer, its declared pixel dimensions, and its encoding.
#[derive(Clone, Copy, Debug, PartialEq, Eq, Structural)]
pub struct Candidate {
    pub offset: usize,
    pub length: usize,
    pub width: u32,
    pub height: u32,
    pub encoding: EncodingKind,
}

/// Parsed structural summary of a file. Never mutated after parse.
pub struct ContainerDescriptor {
    pub format: FormatTag,
    /// Discovered preview candidates, sorted by descending pixel area.
    pub candidates: Vec<Candidate>,
    /// EXIF orientation value; 1 (upright) when the file carries none.
    pub orientation: u16,
}

/// Pixel area of a candidate.
pub open spec fn spec_area(c: Candidate) -> int {
    (c.width as int) * (c.height as int)
}

/// Longest edge of a candidate.
pub open spec fn spec_longest(c: Candidate) -> u32 {
    if c.width >= c.height {
        c.width
    } else {
        c.height
    }
}

/// A candidate's byte range lies inside a buffer of length `n` and its
/// dimensions are positive and representable.
pub open spec fn spec_candidate_wf(c: Candidate, n: int) -> bool {
    &&& c.offset + c.length <= n
    &&& c.length > 0
    &&& 0 < c.width <= 0xFFFF
    &&& 0 < c.height <= 0xFFFF
}

/// Candidate list invariant: all ranges in bounds, sorted by descending
/// pixel area.
pub open spec fn spec_candidates_wf(s: Seq<Candidate>, n: int) -> bool {
    &&& forall|i: int| 0 <= i < s.len() ==> spec_candidate_wf(#[trigger] s[i], n)
    &&& forall|i: int, j: int|
        0 <= i < j < s.len() ==> spec_area(#[trigger] s[i]) >= spec_area(#[trigger] s[j])
}

/// Descriptor invariant against the buffer it was parsed from.
pub open spec fn spec_descriptor_wf(d: ContainerDescriptor, n: int) -> bool {
    spec_candidates_wf(d.candidates@, n)
}

} // verus!
