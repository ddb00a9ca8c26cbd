//! Text surfaces: a text, cut into lines of grapheme clusters.

use unicode_segmentation::UnicodeSegmentation;
use vstd::prelude::*;
use vstd::string::StringSliceAdditionalSpecFns;
use vstd::utf8::{
    encode_utf8, encode_utf8_valid_utf8, is_char_boundary,
    is_char_boundary_iff_not_is_continuation_byte, is_char_boundary_start_end_of_seq,
    valid_utf8_split,
};

verus! {

/// The span of one grapheme cluster: the offset of its first byte in the
/// text, and the offset just past its last byte.
pub type Span = (usize, usize);

/// The byte offsets at which the grapheme clusters of `text` begin, in
/// ascending order, as the Unicode rules for extended grapheme clusters set
/// them.
pub uninterp spec fn grapheme_starts(text: Seq<char>) -> Seq<usize>;

/// `starts` cuts a text of the given bytes into pieces without a gap: the
/// first piece begins the text, each piece begins on a character boundary
/// after the one before it, and a text without bytes has no piece.
pub open spec fn segments_text(starts: Seq<usize>, bytes: Seq<u8>) -> bool {
    &&& starts.len() > 0 ==> starts[0] == 0
    &&& forall|i: int, j: int| 0 <= i < j < starts.len() ==> starts[i] < starts[j]
    &&& forall|i: int|
        0 <= i < starts.len() ==> starts[i] < bytes.len() && is_char_boundary(
            bytes,
            #[trigger] starts[i] as int,
        )
}

/// Calls `UnicodeSegmentation::grapheme_indices` of the crate
/// `unicode-segmentation` on `text`, for extended grapheme clusters, and keeps
/// the offset of each cluster. Not proved: that the offsets are those of the
/// clusters of `text`, and that they begin at 0, ascend strictly, stay below
/// the length of the text and fall on character boundaries.
#[verifier::external_body]
fn grapheme_offsets(text: &str) -> (starts: Vec<usize>)
    ensures
        starts@ == grapheme_starts(text@),
        segments_text(starts@, text.spec_bytes()),
{
    UnicodeSegmentation::grapheme_indices(text, true).map(|(start, _)| start).collect()
}

/// The span of piece `i`: it runs to where the next piece begins, and the
/// last one to the end of the text.
pub open spec fn span_at(starts: Seq<usize>, len: usize, i: int) -> Span {
    (
        starts[i],
        if i + 1 < starts.len() {
            starts[i + 1]
        } else {
            len
        },
    )
}

/// Whether the given bytes are a line break: a carriage return, a line feed,
/// or a carriage return followed by a line feed.
pub open spec fn is_line_break(piece: Seq<u8>) -> bool {
    piece == seq![0x0du8] || piece == seq![0x0au8] || piece == seq![0x0du8, 0x0au8]
}

/// The lines that are complete after the first `n` pieces, and the line that
/// is still open. A line break closes the open line, also an empty one; any
/// other piece joins the open line.
pub open spec fn lay_out(bytes: Seq<u8>, starts: Seq<usize>, n: int) -> (Seq<Seq<Span>>, Seq<Span>)
    decreases n,
{
    if n <= 0 {
        (Seq::empty(), Seq::empty())
    } else {
        let (done, open) = lay_out(bytes, starts, n - 1);
        let span = span_at(starts, bytes.len() as usize, n - 1);
        if is_line_break(bytes.subrange(span.0 as int, span.1 as int)) {
            (done.push(open), Seq::empty())
        } else {
            (done, open.push(span))
        }
    }
}

/// The lines of a text of the given bytes whose pieces begin at `starts`:
/// the pieces between line breaks, without the breaks. What follows the last
/// break is a line only if it holds a piece.
pub open spec fn lines_of(bytes: Seq<u8>, starts: Seq<usize>) -> Seq<Seq<Span>> {
    let (done, open) = lay_out(bytes, starts, starts.len() as int);
    if open.len() > 0 {
        done.push(open)
    } else {
        done
    }
}

/// `width` is the length of the longest line, and 0 where there is no line.
pub open spec fn is_widest(lines: Seq<Seq<Span>>, width: usize) -> bool {
    &&& forall|i: int| 0 <= i < lines.len() ==> (#[trigger] lines[i]).len() <= width
    &&& width == 0 || exists|i: int| 0 <= i < lines.len() && (#[trigger] lines[i]).len() == width
}

/// `span` can be cut out of a text of the given bytes: it lies inside the
/// text and both of its ends fall on character boundaries.
pub open spec fn is_span_of(bytes: Seq<u8>, span: Span) -> bool {
    &&& span.0 <= span.1 <= bytes.len()
    &&& is_char_boundary(bytes, span.0 as int)
    &&& is_char_boundary(bytes, span.1 as int)
}

/// Every span of every line can be cut out of a text of the given bytes.
pub open spec fn all_spans_of(bytes: Seq<u8>, lines: Seq<Seq<Span>>) -> bool {
    forall|row: int, col: int|
        0 <= row < lines.len() && 0 <= col < lines[row].len() ==> is_span_of(
            bytes,
            #[trigger] lines[row][col],
        )
}

/// A sequence of lines, each taken by its view.
pub open spec fn lines_view(lines: Seq<Vec<Span>>) -> Seq<Seq<Span>> {
    lines.map_values(|line: Vec<Span>| line@)
}

/// Whether the bytes from `start` up to `end` are a line break.
fn span_is_line_break(bytes: &[u8], start: usize, end: usize) -> (is_break: bool)
    requires
        start <= end <= bytes@.len(),
    ensures
        is_break == is_line_break(bytes@.subrange(start as int, end as int)),
{
    let piece = Ghost(bytes@.subrange(start as int, end as int));
    let len: usize = end - start;
    if len == 1 {
        let first: u8 = bytes[start];
        assert(piece@ =~= seq![first]);
        assert(seq![0x0du8][0] == 0x0du8 && seq![0x0au8][0] == 0x0au8);
        first == 0x0d || first == 0x0a
    } else if len == 2 {
        let first: u8 = bytes[start];
        let second: u8 = bytes[start + 1];
        assert(piece@ =~= seq![first, second]);
        assert(seq![0x0du8, 0x0au8][0] == 0x0du8 && seq![0x0du8, 0x0au8][1] == 0x0au8);
        first == 0x0d && second == 0x0a
    } else {
        assert(seq![0x0du8].len() == 1 && seq![0x0au8].len() == 1 && seq![
            0x0du8,
            0x0au8,
        ].len() == 2);
        false
    }
}

/// Every piece of a text that `starts` cuts can be cut out of the text.
proof fn lemma_span_at_is_span(bytes: Seq<u8>, starts: Seq<usize>, i: int)
    requires
        vstd::utf8::valid_utf8(bytes),
        bytes.len() <= usize::MAX,
        segments_text(starts, bytes),
        0 <= i < starts.len(),
    ensures
        is_span_of(bytes, span_at(starts, bytes.len() as usize, i)),
        span_at(starts, bytes.len() as usize, i).0 < span_at(starts, bytes.len() as usize, i).1,
{
    is_char_boundary_start_end_of_seq(bytes);
    assert(is_char_boundary(bytes, starts[i] as int));
    if i + 1 < starts.len() {
        assert(is_char_boundary(bytes, starts[i + 1] as int));
    }
}

/// The spans of the first `n` pieces.
pub open spec fn spans_of(starts: Seq<usize>, len: usize, n: int) -> Seq<Span> {
    Seq::new(n as nat, |i: int| span_at(starts, len, i))
}

/// The test for a span of a text of the given bytes that is no line break.
pub open spec fn is_visible(bytes: Seq<u8>) -> spec_fn(Span) -> bool {
    |span: Span| !is_line_break(bytes.subrange(span.0 as int, span.1 as int))
}

/// After the first `n` pieces, the complete lines and the open line hold,
/// one after the other, the pieces that are no line break, and there are as
/// many complete lines as line breaks.
proof fn lemma_lay_out_keeps_the_pieces(bytes: Seq<u8>, starts: Seq<usize>, n: int)
    requires
        0 <= n <= starts.len(),
    ensures
        lay_out(bytes, starts, n).0.flatten() + lay_out(bytes, starts, n).1 == spans_of(
            starts,
            bytes.len() as usize,
            n,
        ).filter(is_visible(bytes)),
        lay_out(bytes, starts, n).0.len() + spans_of(starts, bytes.len() as usize, n).filter(
            is_visible(bytes),
        ).len() == n,
    decreases n,
{
    let len = bytes.len() as usize;
    let test = is_visible(bytes);
    if n == 0 {
        reveal(Seq::filter);
        assert(spans_of(starts, len, 0) =~= Seq::<Span>::empty());
        assert(Seq::<Seq<Span>>::empty().flatten() =~= Seq::<Span>::empty());
        assert(Seq::<Span>::empty() + Seq::<Span>::empty() =~= Seq::<Span>::empty());
    } else {
        lemma_lay_out_keeps_the_pieces(bytes, starts, n - 1);
        let (done, open) = lay_out(bytes, starts, n - 1);
        let span = span_at(starts, len, n - 1);
        let front = spans_of(starts, len, n - 1);
        assert(spans_of(starts, len, n) =~= front.push(span));
        front.lemma_filter_push(span, test);
        if is_line_break(bytes.subrange(span.0 as int, span.1 as int)) {
            done.lemma_flatten_push(open);
            assert(done.push(open).flatten() + Seq::<Span>::empty() =~= done.flatten() + open);
        } else {
            assert(done.flatten() + open.push(span) =~= (done.flatten() + open).push(span));
        }
    }
}

/// The lines of a text hold its grapheme clusters: every piece that is no
/// line break stands in the lines, once and in its place, and nothing else
/// does. So a text has at most as many lines as it has pieces, and no line is
/// longer than the text has pieces.
pub proof fn lemma_lines_hold_the_pieces(bytes: Seq<u8>, starts: Seq<usize>)
    ensures
        lines_of(bytes, starts).flatten() == spans_of(
            starts,
            bytes.len() as usize,
            starts.len() as int,
        ).filter(is_visible(bytes)),
        lines_of(bytes, starts).len() <= starts.len(),
        forall|row: int|
            0 <= row < lines_of(bytes, starts).len() ==> (#[trigger] lines_of(
                bytes,
                starts,
            )[row]).len() <= starts.len(),
{
    let n = starts.len() as int;
    let (done, open) = lay_out(bytes, starts, n);
    let lines = lines_of(bytes, starts);
    let pieces = spans_of(starts, bytes.len() as usize, n).filter(is_visible(bytes));
    lemma_lay_out_keeps_the_pieces(bytes, starts, n);
    if open.len() > 0 {
        done.lemma_flatten_push(open);
    } else {
        assert(done.flatten() + open =~= done.flatten());
    }
    assert(lines.flatten() == pieces);
    assert(pieces.len() <= n);
    assert forall|row: int| 0 <= row < lines.len() implies (#[trigger] lines[row]).len()
        <= starts.len() by {
        lines.lemma_flatten_and_flatten_alt_are_equivalent();
        lines.lemma_flatten_length_ge_single_element_length(row);
    }
}

/// Cuts `text` into lines, given the offsets at which its pieces begin: the
/// pieces between line breaks, as spans, without the breaks.
pub fn segment_lines(text: &str, starts: &Vec<usize>) -> (lines: Vec<Vec<Span>>)
    requires
        segments_text(starts@, text.spec_bytes()),
    ensures
        lines_view(lines@) == lines_of(text.spec_bytes(), starts@),
        all_spans_of(text.spec_bytes(), lines_view(lines@)),
{
    let bytes = text.as_bytes();
    let total: usize = bytes.len();
    proof {
        encode_utf8_valid_utf8(text@);
    }
    let mut lines: Vec<Vec<Span>> = Vec::new();
    let mut open: Vec<Span> = Vec::new();
    let mut i: usize = 0;
    assert(lines_view(lines@) =~= Seq::<Seq<Span>>::empty());
    while i < starts.len()
        invariant
            i <= starts.len(),
            bytes@ == text.spec_bytes(),
            total == bytes@.len(),
            vstd::utf8::valid_utf8(bytes@),
            segments_text(starts@, bytes@),
            (lines_view(lines@), open@) == lay_out(bytes@, starts@, i as int),
            all_spans_of(bytes@, lines_view(lines@)),
            forall|col: int| 0 <= col < open@.len() ==> is_span_of(bytes@, #[trigger] open@[col]),
        decreases starts.len() - i,
    {
        let start: usize = starts[i];
        let end: usize = if i + 1 < starts.len() {
            starts[i + 1]
        } else {
            total
        };
        proof {
            lemma_span_at_is_span(bytes@, starts@, i as int);
        }
        assert((start, end) == span_at(starts@, bytes@.len() as usize, i as int));
        let ghost before = lines_view(lines@);
        if span_is_line_break(bytes, start, end) {
            lines.push(open);
            open = Vec::new();
            assert(lines_view(lines@) =~= before.push(lay_out(bytes@, starts@, i as int).1));
        } else {
            open.push((start, end));
        }
        i += 1;
    }
    if open.len() > 0 {
        let ghost before = lines_view(lines@);
        let ghost last = open@;
        lines.push(open);
        assert(lines_view(lines@) =~= before.push(last));
    }
    lines
}

/// The length of the longest of `lines`.
pub fn widest_line(lines: &Vec<Vec<Span>>) -> (width: usize)
    ensures
        is_widest(lines_view(lines@), width),
{
    let mut width: usize = 0;
    let mut i: usize = 0;
    while i < lines.len()
        invariant
            i <= lines.len(),
            forall|k: int| 0 <= k < i ==> (#[trigger] lines_view(lines@)[k]).len() <= width,
            width == 0 || exists|k: int|
                0 <= k < i && (#[trigger] lines_view(lines@)[k]).len() == width,
        decreases lines.len() - i,
    {
        let len: usize = lines[i].len();
        assert(lines_view(lines@)[i as int] == lines@[i as int]@);
        if len > width {
            width = len;
        }
        i += 1;
    }
    width
}

/// A text surface: a text, the spans of its grapheme clusters line by line,
/// and the length of its longest line. The spans always fit the text.
#[derive(Debug, PartialEq, Eq)]
pub struct Sprite {
    data: String,
    graphemes: Vec<Vec<Span>>,
    max_width: usize,
}

impl Sprite {
    /// The text.
    pub closed spec fn spec_data(&self) -> Seq<char> {
        self.data@
    }

    /// The bytes of the text.
    pub open spec fn spec_bytes(&self) -> Seq<u8> {
        encode_utf8(self.spec_data())
    }

    /// The lines, each a sequence of spans into the bytes of the text.
    pub closed spec fn spec_graphemes(&self) -> Seq<Seq<Span>> {
        lines_view(self.graphemes@)
    }

    /// The length of the longest line, in grapheme clusters.
    pub closed spec fn spec_width(&self) -> usize {
        self.max_width
    }

    /// The number of lines.
    pub open spec fn spec_height(&self) -> usize {
        self.spec_graphemes().len() as usize
    }

    /// The lines are those of the text, cut where its grapheme clusters
    /// begin; every span can be cut out of the text; and the width is the
    /// length of the longest line.
    pub open spec fn laid_out(&self) -> bool {
        &&& self.spec_graphemes() == lines_of(self.spec_bytes(), grapheme_starts(self.spec_data()))
        &&& all_spans_of(self.spec_bytes(), self.spec_graphemes())
        &&& is_widest(self.spec_graphemes(), self.spec_width())
        &&& self.spec_graphemes().len() <= usize::MAX
    }

    #[verifier::type_invariant]
    spec fn inv(&self) -> bool {
        &&& lines_view(self.graphemes@) == lines_of(
            encode_utf8(self.data@),
            grapheme_starts(self.data@),
        )
        &&& all_spans_of(encode_utf8(self.data@), lines_view(self.graphemes@))
        &&& is_widest(lines_view(self.graphemes@), self.max_width)
        &&& self.graphemes@.len() <= usize::MAX
    }

    /// The surface of the text `value`.
    pub fn new(value: &str) -> (sprite: Sprite)
        ensures
            sprite.spec_data() == value@,
            sprite.laid_out(),
    {
        let data: String = value.to_owned();
        let text: &str = data.as_str();
        let starts = grapheme_offsets(text);
        let graphemes = segment_lines(text, &starts);
        let max_width = widest_line(&graphemes);
        assert(text.spec_bytes() == encode_utf8(data@));
        assert(graphemes@.len() == graphemes.len());
        Sprite { data, graphemes, max_width }
    }

    /// The text.
    pub fn data(&self) -> (data: &str)
        ensures
            data@ == self.spec_data(),
    {
        self.data.as_str()
    }

    /// The length of the longest line, in grapheme clusters.
    pub fn width(&self) -> (width: usize)
        ensures
            width == self.spec_width(),
            self.laid_out(),
    {
        proof {
            use_type_invariant(self);
        }
        self.max_width
    }

    /// The number of lines.
    pub fn height(&self) -> (height: usize)
        ensures
            height == self.spec_height(),
            self.laid_out(),
    {
        proof {
            use_type_invariant(self);
        }
        self.graphemes.len()
    }

    /// Half the width, rounded down.
    pub fn x_center(&self) -> (center: usize)
        ensures
            center == self.spec_width() / 2,
    {
        self.width() / 2
    }

    /// Half the height, rounded down.
    pub fn y_center(&self) -> (center: usize)
        ensures
            center == self.spec_height() / 2,
    {
        self.height() / 2
    }

    /// The lines, each a sequence of spans into the text.
    pub fn graphemes(&self) -> (lines: &[Vec<Span>])
        ensures
            lines_view(lines@) == self.spec_graphemes(),
            self.laid_out(),
    {
        proof {
            use_type_invariant(self);
        }
        self.graphemes.as_slice()
    }

    /// The part of the text that `grapheme` spans.
    pub fn grapheme(&self, grapheme: &Span) -> (piece: &str)
        requires
            is_span_of(self.spec_bytes(), *grapheme),
        ensures
            piece.spec_bytes() == self.spec_bytes().subrange(grapheme.0 as int, grapheme.1 as int),
    {
        let text = self.data.as_str();
        let ghost bytes = text.spec_bytes();
        proof {
            encode_utf8_valid_utf8(text@);
            valid_utf8_split(bytes, grapheme.1 as int);
            let head = bytes.subrange(0, grapheme.1 as int);
            if grapheme.0 < grapheme.1 {
                is_char_boundary_iff_not_is_continuation_byte(bytes, grapheme.0 as int);
                is_char_boundary_iff_not_is_continuation_byte(head, grapheme.0 as int);
            } else {
                is_char_boundary_start_end_of_seq(head);
            }
        }
        let (head, _) = text.split_at(grapheme.1);
        let (_, piece) = head.split_at(grapheme.0);
        assert(piece.spec_bytes() =~= bytes.subrange(grapheme.0 as int, grapheme.1 as int));
        piece
    }

    /// Replaces the text, and lays the new one out.
    pub fn update(&mut self, value: &str)
        ensures
            final(self).spec_data() == value@,
            final(self).laid_out(),
    {
        *self = Sprite::new(value);
    }
}

impl Default for Sprite {
    /// The surface of the empty text.
    fn default() -> (sprite: Self)
        ensures
            sprite.spec_data() == Seq::<char>::empty(),
            sprite.laid_out(),
    {
        let sprite = Sprite::new("");
        proof {
            reveal_strlit("");
            assert(sprite.spec_data() =~= Seq::<char>::empty());
        }
        sprite
    }
}

} // verus!
