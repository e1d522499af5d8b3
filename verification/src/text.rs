//! Grapheme clusters of a text: where they start, how long they are in
//! bytes, and how many display columns each takes.

use unicode_segmentation::UnicodeSegmentation;
use unicode_width::UnicodeWidthStr;
use vstd::prelude::*;
use vstd::utf8::*;

verus! {

/// The byte lengths of the extended grapheme clusters of `text`, first to last.
pub uninterp spec fn grapheme_lengths(text: Seq<char>) -> Seq<usize>;

/// The number of display columns that `text` takes as a whole.
pub uninterp spec fn display_width(text: Seq<char>) -> usize;

/// The byte offset at which the piece `i` of a run of pieces starts: the sum
/// of the lengths of the pieces before it.
pub open spec fn offset_of(lens: Seq<usize>, i: int) -> int
    decreases i,
{
    if i <= 0 {
        0
    } else {
        offset_of(lens, i - 1) + lens[i - 1]
    }
}

/// `lens` cuts `bytes` into consecutive non-empty pieces that each start and
/// end between two characters and together cover all of `bytes`.
pub open spec fn is_segmentation(bytes: Seq<u8>, lens: Seq<usize>) -> bool {
    &&& forall|i: int| 0 <= i < lens.len() ==> #[trigger] lens[i] > 0
    &&& forall|k: int|
        0 <= k <= lens.len() ==> 0 <= #[trigger] offset_of(lens, k) <= bytes.len()
            && is_char_boundary(bytes, offset_of(lens, k))
    &&& offset_of(lens, lens.len() as int) == bytes.len()
}

/// One grapheme cluster: its length in bytes and its width in columns.
#[derive(Clone, Copy, Debug, PartialEq, Eq, Structural)]
pub struct Cluster {
    pub len: usize,
    pub width: usize,
}

/// The characters that `bytes` holds from byte `from` up to byte `to`.
pub open spec fn chars_between(bytes: Seq<u8>, from: int, to: int) -> Seq<char> {
    decode_utf8(bytes.subrange(from, to))
}

/// The part of `text` between two byte offsets.
pub open spec fn slice_of(text: Seq<char>, from: int, to: int) -> Seq<char> {
    chars_between(encode_utf8(text), from, to)
}

/// The grapheme clusters of `text`, each with its byte length and the display
/// width of the characters it spans.
pub open spec fn clusters_of(text: Seq<char>) -> Seq<Cluster> {
    let lens = grapheme_lengths(text);
    Seq::new(
        lens.len(),
        |i: int|
            Cluster {
                len: lens[i],
                width: display_width(
                    slice_of(text, offset_of(lens, i), offset_of(lens, i + 1)),
                ),
            },
    )
}

/// Calls `UnicodeSegmentation::graphemes` with extended clusters and hands out
/// the byte length of each cluster. Trusted: the lengths are the named
/// segmentation of the text, every cluster is non-empty, the clusters follow
/// one another from the first byte to the last, and each is a string slice,
/// so it starts and ends between two characters.
#[verifier::external_body]
fn cluster_lengths(text: &str) -> (r: Vec<usize>)
    ensures
        r@ == grapheme_lengths(text@),
        is_segmentation(encode_utf8(text@), r@),
{
    text.graphemes(true).map(|g| g.len()).collect()
}

/// Calls `UnicodeWidthStr::width`. Trusted: the result is the named display
/// width of the text.
#[verifier::external_body]
pub(crate) fn str_width(text: &str) -> (r: usize)
    ensures
        r == display_width(text@),
{
    text.width()
}

/// In well-formed UTF-8 a position is between two characters exactly when it
/// is the end of the bytes or the byte there does not continue a character.
pub proof fn lemma_boundary_by_byte(bytes: Seq<u8>, at: int)
    requires
        valid_utf8(bytes),
        0 <= at <= bytes.len(),
    ensures
        is_char_boundary(bytes, at) <==> (at == bytes.len() || !is_continuation_byte(bytes[at])),
{
    is_char_boundary_start_end_of_seq(bytes);
    if at < bytes.len() {
        is_char_boundary_iff_not_is_continuation_byte(bytes, at);
    }
}

/// A slice cut between characters is well-formed, and a position inside it is
/// between two characters of the slice exactly when it is so in the whole.
pub proof fn lemma_boundary_in_slice(bytes: Seq<u8>, from: int, to: int, at: int)
    requires
        valid_utf8(bytes),
        0 <= from <= at <= to <= bytes.len(),
        is_char_boundary(bytes, from),
        is_char_boundary(bytes, to),
    ensures
        valid_utf8(bytes.subrange(from, to)),
        is_char_boundary(bytes.subrange(from, to), at - from) <==> is_char_boundary(bytes, at),
{
    let head = bytes.subrange(0, to);
    valid_utf8_split(bytes, to);
    lemma_boundary_by_byte(bytes, from);
    lemma_boundary_by_byte(head, from);
    valid_utf8_split(head, from);
    let mid = head.subrange(from, to);
    assert(mid =~= bytes.subrange(from, to));
    lemma_boundary_by_byte(bytes, at);
    lemma_boundary_by_byte(bytes, to);
    lemma_boundary_by_byte(mid, at - from);
}

/// The length of `text` in bytes.
pub fn byte_len(text: &str) -> (n: usize)
    ensures
        n == encode_utf8(text@).len(),
{
    text.as_bytes().len()
}

/// The part of `text` between two byte offsets that lie between characters.
pub fn slice(text: &str, from: usize, to: usize) -> (r: &str)
    requires
        from <= to <= encode_utf8(text@).len(),
        is_char_boundary(encode_utf8(text@), from as int),
        is_char_boundary(encode_utf8(text@), to as int),
    ensures
        r@ == slice_of(text@, from as int, to as int),
        encode_utf8(r@) == encode_utf8(text@).subrange(from as int, to as int),
{
    let ghost bytes = encode_utf8(text@);
    proof {
        encode_utf8_valid_utf8(text@);
        lemma_boundary_in_slice(bytes, 0, to as int, from as int);
    }
    let (head, _) = text.split_at(to);
    proof {
        assert(encode_utf8(head@) =~= bytes.subrange(0, to as int));
    }
    let (_, r) = head.split_at(from);
    proof {
        assert(encode_utf8(r@) =~= bytes.subrange(from as int, to as int));
        encode_utf8_decode_utf8(r@);
    }
    r
}

/// The grapheme clusters of `text`, first to last, each with its byte length
/// and its display width.
pub fn clusters(text: &str) -> (r: Vec<Cluster>)
    ensures
        r@ == clusters_of(text@),
        r@.len() == grapheme_lengths(text@).len(),
        is_segmentation(encode_utf8(text@), grapheme_lengths(text@)),
{
    let lens = cluster_lengths(text);
    let ghost bytes = encode_utf8(text@);
    let total = byte_len(text);
    let mut out: Vec<Cluster> = Vec::new();
    let mut pos: usize = 0;
    let mut i: usize = 0;
    while i < lens.len()
        invariant
            i <= lens.len(),
            lens@ == grapheme_lengths(text@),
            bytes == encode_utf8(text@),
            is_segmentation(bytes, lens@),
            total == bytes.len(),
            pos == offset_of(lens@, i as int),
            out@.len() == i,
            forall|j: int| 0 <= j < i ==> out@[j] == clusters_of(text@)[j],
        decreases lens.len() - i,
    {
        let len = lens[i];
        proof {
            encode_utf8_valid_utf8(text@);
            assert(offset_of(lens@, i as int + 1) == pos + len);
            assert(pos + len <= total);
        }
        let piece = slice(text, pos, pos + len);
        let width = str_width(piece);
        out.push(Cluster { len, width });
        pos = pos + len;
        i = i + 1;
    }
    proof {
        assert(out@ =~= clusters_of(text@));
    }
    out
}

/// The byte offset at which cluster `i` starts.
pub open spec fn start_of(c: Seq<Cluster>, i: int) -> int
    decreases i,
{
    if i <= 0 {
        0
    } else {
        start_of(c, i - 1) + c[i - 1].len
    }
}

/// The display width of the clusters from `from` up to `to`.
pub open spec fn width_between(c: Seq<Cluster>, from: int, to: int) -> int
    decreases to - from,
{
    if to <= from {
        0
    } else {
        width_between(c, from, to - 1) + c[to - 1].width
    }
}

/// The number of clusters, counted back from cluster `end`, that fit in
/// `budget` columns: clusters are taken while the next one still fits.
pub open spec fn suffix_count(c: Seq<Cluster>, end: int, budget: int) -> int
    decreases end,
{
    if end <= 0 || c[end - 1].width > budget {
        0
    } else {
        1 + suffix_count(c, end - 1, budget - c[end - 1].width)
    }
}

/// The number of clusters, counted forward from cluster `from`, that fit in
/// `budget` columns.
pub open spec fn prefix_count(c: Seq<Cluster>, from: int, budget: int) -> int
    decreases c.len() - from,
{
    if from < 0 || from >= c.len() || c[from].width > budget {
        0
    } else {
        1 + prefix_count(c, from + 1, budget - c[from].width)
    }
}

/// The byte length of the longest run of clusters at the end of `c` whose
/// widths sum to at most `budget`.
pub open spec fn suffix_len(c: Seq<Cluster>, budget: int) -> int {
    start_of(c, c.len() as int) - start_of(c, c.len() - suffix_count(c, c.len() as int, budget))
}

/// The byte length of the longest run of clusters at the start of `c` whose
/// widths sum to at most `budget`.
pub open spec fn prefix_len(c: Seq<Cluster>, budget: int) -> int {
    start_of(c, prefix_count(c, 0, budget))
}

/// Cluster starts never go backwards.
pub proof fn lemma_start_of_monotonic(c: Seq<Cluster>, i: int, j: int)
    requires
        0 <= i <= j,
    ensures
        0 <= start_of(c, i) <= start_of(c, j),
    decreases j,
{
    if i < j {
        lemma_start_of_monotonic(c, i, j - 1);
    } else if i > 0 {
        lemma_start_of_monotonic(c, i - 1, j - 1);
    }
}

/// The clusters of a text start where its segmentation says.
pub proof fn lemma_start_of_clusters(text: Seq<char>, i: int)
    requires
        0 <= i <= grapheme_lengths(text).len(),
    ensures
        start_of(clusters_of(text), i) == offset_of(grapheme_lengths(text), i),
    decreases i,
{
    if i > 0 {
        lemma_start_of_clusters(text, i - 1);
    }
}

/// The run that `suffix_count` picks is the longest one at the end that
/// fits: its widths sum to at most the budget, and with one more cluster in
/// front they would not.
pub proof fn lemma_suffix_count_longest(c: Seq<Cluster>, end: int, budget: int)
    requires
        0 <= end <= c.len(),
        0 <= budget,
    ensures
        0 <= suffix_count(c, end, budget) <= end,
        width_between(c, end - suffix_count(c, end, budget), end) <= budget,
        suffix_count(c, end, budget) < end ==> width_between(
            c,
            end - suffix_count(c, end, budget) - 1,
            end,
        ) > budget,
    decreases end,
{
    if end > 0 && c[end - 1].width <= budget {
        lemma_suffix_count_longest(c, end - 1, budget - c[end - 1].width);
    } else if end > 0 {
        assert(width_between(c, end - 1, end - 1) == 0);
    }
}

/// The width of a run is the width of its first cluster and of the rest.
pub proof fn lemma_width_between_first(c: Seq<Cluster>, from: int, to: int)
    requires
        from < to,
    ensures
        width_between(c, from, to) == c[from].width + width_between(c, from + 1, to),
    decreases to - from,
{
    if from + 1 < to {
        lemma_width_between_first(c, from, to - 1);
    } else {
        assert(width_between(c, from, from) == 0);
        assert(width_between(c, from + 1, to) == 0);
    }
}

/// The run that `prefix_count` picks is the longest one from `from` on that
/// fits: its widths sum to at most the budget, and with one more cluster
/// behind they would not.
pub proof fn lemma_prefix_count_longest(c: Seq<Cluster>, from: int, budget: int)
    requires
        0 <= from <= c.len(),
        0 <= budget,
    ensures
        0 <= prefix_count(c, from, budget) <= c.len() - from,
        width_between(c, from, from + prefix_count(c, from, budget)) <= budget,
        from + prefix_count(c, from, budget) < c.len() ==> width_between(
            c,
            from,
            from + prefix_count(c, from, budget) + 1,
        ) > budget,
    decreases c.len() - from,
{
    if from < c.len() && c[from].width <= budget {
        let rest = prefix_count(c, from + 1, budget - c[from].width);
        lemma_prefix_count_longest(c, from + 1, budget - c[from].width);
        lemma_width_between_first(c, from, from + 1 + rest);
        if from + 1 + rest < c.len() {
            lemma_width_between_first(c, from, from + 2 + rest);
        }
    } else if from < c.len() {
        assert(width_between(c, from, from) == 0);
    }
}

/// The byte length of the longest run of clusters at the end of `c` that
/// fits in `budget` columns.
pub fn suffix_length(c: &Vec<Cluster>, budget: usize) -> (r: usize)
    requires
        start_of(c@, c@.len() as int) <= usize::MAX,
    ensures
        r == suffix_len(c@, budget as int),
{
    let n = c.len();
    let mut i: usize = n;
    let mut left: usize = budget;
    let mut bytes: usize = 0;
    while i > 0 && c[i - 1].width <= left
        invariant
            i <= n,
            n == c@.len(),
            start_of(c@, n as int) <= usize::MAX,
            bytes == start_of(c@, n as int) - start_of(c@, i as int),
            suffix_count(c@, n as int, budget as int) == (n - i) + suffix_count(
                c@,
                i as int,
                left as int,
            ),
        decreases i,
    {
        proof {
            lemma_start_of_monotonic(c@, i as int - 1, n as int);
        }
        left = left - c[i - 1].width;
        bytes = bytes + c[i - 1].len;
        i = i - 1;
    }
    bytes
}

/// The byte length of the longest run of clusters at the start of `c` that
/// fits in `budget` columns.
pub fn prefix_length(c: &Vec<Cluster>, budget: usize) -> (r: usize)
    requires
        start_of(c@, c@.len() as int) <= usize::MAX,
    ensures
        r == prefix_len(c@, budget as int),
{
    let n = c.len();
    let mut i: usize = 0;
    let mut left: usize = budget;
    let mut bytes: usize = 0;
    while i < n && c[i].width <= left
        invariant
            i <= n,
            n == c@.len(),
            start_of(c@, n as int) <= usize::MAX,
            bytes == start_of(c@, i as int),
            prefix_count(c@, 0, budget as int) == i + prefix_count(c@, i as int, left as int),
        decreases n - i,
    {
        proof {
            lemma_start_of_monotonic(c@, i as int + 1, n as int);
        }
        left = left - c[i].width;
        bytes = bytes + c[i].len;
        i = i + 1;
    }
    bytes
}

/// The byte length of the longest run of grapheme clusters at the end of
/// `text` that fits in `width` columns. The run starts between two
/// characters of `text`.
pub fn simple_suffix_length(text: &str, width: usize) -> (r: usize)
    ensures
        r == suffix_len(clusters_of(text@), width as int),
        r <= encode_utf8(text@).len(),
        is_char_boundary(encode_utf8(text@), encode_utf8(text@).len() - r),
{
    let c = clusters(text);
    let total = byte_len(text);
    proof {
        let n = c@.len() as int;
        let k = suffix_count(c@, n, width as int);
        lemma_suffix_count_longest(c@, n, width as int);
        lemma_start_of_clusters(text@, n);
        lemma_start_of_clusters(text@, n - k);
        lemma_start_of_monotonic(c@, n - k, n);
    }
    suffix_length(&c, width)
}

/// The byte length of the longest run of grapheme clusters at the start of
/// `text` that fits in `width` columns. The run ends between two characters
/// of `text`.
pub fn simple_prefix_length(text: &str, width: usize) -> (r: usize)
    ensures
        r == prefix_len(clusters_of(text@), width as int),
        r <= encode_utf8(text@).len(),
        is_char_boundary(encode_utf8(text@), r as int),
{
    let c = clusters(text);
    let total = byte_len(text);
    proof {
        let n = c@.len() as int;
        let k = prefix_count(c@, 0, width as int);
        lemma_prefix_count_longest(c@, 0, width as int);
        lemma_start_of_clusters(text@, n);
        lemma_start_of_clusters(text@, k);
        lemma_start_of_monotonic(c@, k, n);
    }
    prefix_length(&c, width)
}

/// The grapheme cluster of `text` that starts at byte `at`.
pub open spec fn next_cluster(text: Seq<char>, at: int) -> Cluster {
    clusters_of(slice_of(text, at, encode_utf8(text).len() as int))[0]
}

/// The grapheme cluster of `text` that ends at byte `at`.
pub open spec fn previous_cluster(text: Seq<char>, at: int) -> Cluster {
    clusters_of(slice_of(text, 0, at)).last()
}

/// The end and the display width of the grapheme cluster that starts at
/// byte `at`, or `None` at the end of the text.
pub fn next_boundary(text: &str, at: usize) -> (r: Option<(usize, usize)>)
    requires
        at <= encode_utf8(text@).len(),
        is_char_boundary(encode_utf8(text@), at as int),
    ensures
        r is None <==> at == encode_utf8(text@).len(),
        r matches Some((end, width)) ==> {
            &&& end == at + next_cluster(text@, at as int).len
            &&& width == next_cluster(text@, at as int).width
            &&& at < end <= encode_utf8(text@).len()
            &&& is_char_boundary(encode_utf8(text@), end as int)
        },
{
    let total = byte_len(text);
    if at == total {
        return None;
    }
    let ghost bytes = encode_utf8(text@);
    proof {
        encode_utf8_valid_utf8(text@);
        is_char_boundary_start_end_of_seq(bytes);
    }
    let tail = slice(text, at, total);
    let c = clusters(tail);
    proof {
        let lens = grapheme_lengths(tail@);
        assert(offset_of(lens, 0) == 0);
        assert(lens.len() > 0);
        assert(offset_of(lens, 1) == lens[0]);
        assert(lens[0] > 0);
        assert(is_char_boundary(encode_utf8(tail@), offset_of(lens, 1)));
        lemma_boundary_in_slice(bytes, at as int, total as int, at + lens[0]);
    }
    let first = c[0];
    Some((at + first.len, first.width))
}

/// The start and the display width of the grapheme cluster that ends at
/// byte `at`, or `None` at the start of the text.
pub fn previous_boundary(text: &str, at: usize) -> (r: Option<(usize, usize)>)
    requires
        at <= encode_utf8(text@).len(),
        is_char_boundary(encode_utf8(text@), at as int),
    ensures
        r is None <==> at == 0,
        r matches Some((start, width)) ==> {
            &&& start == at - previous_cluster(text@, at as int).len
            &&& width == previous_cluster(text@, at as int).width
            &&& 0 <= start < at
            &&& is_char_boundary(encode_utf8(text@), start as int)
        },
{
    if at == 0 {
        return None;
    }
    let ghost bytes = encode_utf8(text@);
    proof {
        encode_utf8_valid_utf8(text@);
        is_char_boundary_start_end_of_seq(bytes);
    }
    let head = slice(text, 0, at);
    let c = clusters(head);
    proof {
        let lens = grapheme_lengths(head@);
        let n = lens.len() as int;
        assert(offset_of(lens, 0) == 0);
        assert(n > 0);
        assert(offset_of(lens, n) == offset_of(lens, n - 1) + lens[n - 1]);
        assert(lens[n - 1] > 0);
        assert(is_char_boundary(encode_utf8(head@), offset_of(lens, n - 1)));
        lemma_boundary_in_slice(bytes, 0, at as int, offset_of(lens, n - 1));
    }
    let last = c[c.len() - 1];
    Some((at - last.len, last.width))
}

} // verus!
