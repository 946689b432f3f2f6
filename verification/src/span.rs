use vstd::prelude::*;
use vstd::string::StringSliceAdditionalSpecFns;
use vstd::utf8::is_char_boundary;

verus! {

/// A byte range `[start, start + size)` into a source string.
///
/// Offsets are `u32`: only sources up to 4GB are supported.
#[derive(Debug, Clone, Copy, PartialEq, Eq, Structural)]
pub struct Span {
    pub(crate) start: u32,
    pub(crate) size: u32,
}

impl Span {
    /// The offset one past the last byte of the span, as a mathematical integer.
    pub open(crate) spec fn start_spec(self) -> u32 {
        self.start
    }

    pub open(crate) spec fn size_spec(self) -> u32 {
        self.size
    }

    pub open(crate) spec fn end_spec(self) -> int {
        self.start + self.size
    }

    /// A span whose end offset fits in a `u32`.
    pub open(crate) spec fn wf(self) -> bool {
        self.start + self.size <= u32::MAX
    }

    /// The span lies within `src`.
    pub open(crate) spec fn within(self, src: Seq<u8>) -> bool {
        &&& self.wf()
        &&& self.end_spec() <= src.len()
    }

    /// The span lies within `src` and both of its ends fall on character boundaries.
    pub open(crate) spec fn fits(self, src: Seq<u8>) -> bool {
        &&& self.wf()
        &&& self.end_spec() <= src.len()
        &&& is_char_boundary(src, self.start as int)
        &&& is_char_boundary(src, self.end_spec())
    }

    /// The characters of `src` that the span covers.
    pub open(crate) spec fn text_of(self, src: Seq<u8>) -> Seq<char> {
        vstd::utf8::decode_utf8(self.bytes_of(src))
    }

    /// The bytes of `src` that the span covers.
    pub open(crate) spec fn bytes_of(self, src: Seq<u8>) -> Seq<u8> {
        src.subrange(self.start as int, self.end_spec())
    }

    pub fn sized(start: u32, size: u32) -> (s: Span)
        ensures
            s.start_spec() == start,
            s.size_spec() == size,
    {
        Span { start, size }
    }

    /// Creates a span from a start and an end offset; `start <= end`.
    pub fn from_range(start: u32, end: u32) -> (s: Span)
        requires
            start <= end,
        ensures
            s.start_spec() == start,
            s.end_spec() == end,
    {
        Span { start, size: end - start }
    }

    pub fn empty(start: u32) -> (s: Span)
        ensures
            s.start_spec() == start,
            s.size_spec() == 0,
    {
        Span { start, size: 0 }
    }

    pub fn start(&self) -> (r: u32)
        ensures
            r == self.start_spec(),
    {
        self.start
    }

    /// The end offset; the span must not run past `u32::MAX`.
    pub fn end(&self) -> (r: u32)
        requires
            self.wf(),
        ensures
            r == self.end_spec(),
    {
        self.start + self.size
    }

    pub fn size(&self) -> (r: u32)
        ensures
            r == self.size_spec(),
    {
        self.size
    }

    pub fn is_empty(&self) -> (r: bool)
        ensures
            r == (self.size_spec() == 0),
    {
        self.size == 0
    }
}

impl Span {
    /// The text that the span covers in `source`.
    ///
    /// The span must lie within the source and start and end on character
    /// boundaries; slicing elsewhere would panic.
    pub fn text(self, source: &str) -> (r: &str)
        requires
            self.fits(source.spec_bytes()),
        ensures
            r.spec_bytes() == self.bytes_of(source.spec_bytes()),
            r@ == self.text_of(source.spec_bytes()),
    {
        let end = self.end() as usize;
        let (head, _) = source.split_at(end);
        proof {
            vstd::utf8::encode_utf8_valid_utf8(source@);
            vstd::utf8::valid_utf8_split(source.spec_bytes(), end as int);
            vstd::utf8::encode_utf8_valid_utf8(head@);
            assert(head.spec_bytes() =~= source.spec_bytes().subrange(0, end as int));
            lemma_boundary_in_prefix(source.spec_bytes(), end as int, self.start as int);
        }
        let (_, tail) = head.split_at(self.start as usize);
        proof {
            vstd::utf8::encode_utf8_decode_utf8(tail@);
        }
        tail
    }
}

/// A character boundary of a valid UTF-8 sequence that lies before a cut point at a
/// boundary is also a boundary of the prefix.
proof fn lemma_boundary_in_prefix(bytes: Seq<u8>, cut: int, i: int)
    requires
        vstd::utf8::valid_utf8(bytes),
        0 <= i <= cut <= bytes.len(),
        is_char_boundary(bytes, cut),
        is_char_boundary(bytes, i),
    ensures
        is_char_boundary(bytes.subrange(0, cut), i),
{
    let pre = bytes.subrange(0, cut);
    vstd::utf8::valid_utf8_split(bytes, cut);
    vstd::utf8::is_char_boundary_start_end_of_seq(pre);
    if 0 < i < cut {
        vstd::utf8::is_char_boundary_iff_not_is_continuation_byte(bytes, i);
        vstd::utf8::is_char_boundary_iff_not_is_continuation_byte(pre, i);
    }
}

} // verus!
