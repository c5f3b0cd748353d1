//! Include directives in shader sources: `#include "path"` stands for the text of the file at `path`.
//!
//! Finding the directives goes through the regex crate; replacing them by the included texts is a splice of byte
//! ranges. Reading the included files stands outside this library: it finds the directives, reads the files they
//! name, and splices their texts in, until no directive is left.
use vstd::prelude::*;
use vstd::string::{StringExecFns, StringSliceAdditionalSpecFns};

verus! {

/// The pattern of an include directive; its first group is the path of the included file.
pub const INCLUDE_PATTERN: &'static str = "#include \"(.+)\"";

/// What the regex crate finds of `pattern` in `text`: `None` when it refuses the pattern, and otherwise, for each
/// match in order, the byte range of each of its groups, starting with the whole match, or `None` for a group that
/// took no part in the match.
pub uninterp spec fn regex_capture_spans(pattern: Seq<char>, text: Seq<char>) -> Option<Seq<Seq<Option<(usize, usize)>>>>;

/// Calls `Regex::new` on `pattern` and, when it is accepted, `Regex::captures_iter` on `text`, turning each match
/// into the byte ranges of its groups (`Captures::iter`, `Match::start`, `Match::end`). The result is what
/// [`regex_capture_spans`] names.
#[verifier::external_body]
fn regex_captures(pattern: &str, text: &str) -> (r: Option<Vec<Vec<Option<(usize, usize)>>>>)
    ensures
        r.deep_view() == regex_capture_spans(pattern@, text@),
{
    match regex::Regex::new(pattern) {
        Ok(re) => Some(
            re.captures_iter(text).map(|c| c.iter().map(|g| g.map(|m| (m.start(), m.end()))).collect()).collect(),
        ),
        Err(_) => None,
    }
}

/// An include directive: the byte range of the whole directive, and the byte range of the path it names.
#[derive(Copy, Clone, PartialEq, Eq, Structural, Debug)]
pub struct IncludeDirective {
    pub start: usize,
    pub end: usize,
    pub path_start: usize,
    pub path_end: usize,
}

/// The directive that a match of [`INCLUDE_PATTERN`] makes, when its whole match and its path group took part.
pub open spec fn directive_of(groups: Seq<Option<(usize, usize)>>) -> Option<IncludeDirective> {
    if groups.len() >= 2 && groups[0] is Some && groups[1] is Some {
        Some(
            IncludeDirective {
                start: groups[0]->Some_0.0,
                end: groups[0]->Some_0.1,
                path_start: groups[1]->Some_0.0,
                path_end: groups[1]->Some_0.1,
            },
        )
    } else {
        None
    }
}

/// The directives that the matches `captures` make, in order.
pub open spec fn directives_of(captures: Seq<Seq<Option<(usize, usize)>>>) -> Seq<IncludeDirective>
    decreases captures.len(),
{
    if captures.len() == 0 {
        Seq::empty()
    } else {
        let rest = directives_of(captures.drop_last());
        match directive_of(captures.last()) {
            Some(d) => rest.push(d),
            None => rest,
        }
    }
}

/// The include directives of `text`, in order; `None` when the regex crate refuses the pattern.
pub fn find_includes(text: &str) -> (r: Option<Vec<IncludeDirective>>)
    ensures
        r is None <==> regex_capture_spans(INCLUDE_PATTERN@, text@) is None,
        r matches Some(d) ==> d@ == directives_of(regex_capture_spans(INCLUDE_PATTERN@, text@)->Some_0),
{
    match regex_captures(INCLUDE_PATTERN, text) {
        None => None,
        Some(captures) => Some(directives_from_captures(&captures)),
    }
}

/// The directives that the matches `captures` make, in order.
pub fn directives_from_captures(captures: &Vec<Vec<Option<(usize, usize)>>>) -> (r: Vec<IncludeDirective>)
    ensures
        r@ == directives_of(captures.deep_view()),
{
    let mut r: Vec<IncludeDirective> = Vec::new();
    let mut i: usize = 0;
    while i < captures.len()
        invariant
            0 <= i <= captures.len(),
            r@ == directives_of(captures.deep_view().take(i as int)),
        decreases captures.len() - i,
    {
        let groups = &captures[i];
        let ghost view = captures.deep_view();
        assert(view.take(i + 1).drop_last() =~= view.take(i as int));
        assert(view.take(i + 1).last() == view[i as int]);
        assert(view[i as int] == groups.deep_view());
        if groups.len() >= 2 {
            match (groups[0], groups[1]) {
                (Some(whole), Some(path)) => {
                    r.push(
                        IncludeDirective { start: whole.0, end: whole.1, path_start: path.0, path_end: path.1 },
                    );
                },
                _ => {},
            }
        }
        i = i + 1;
    }
    assert(captures.deep_view().take(captures.len() as int) =~= captures.deep_view());
    r
}

/// Where the text before the directive `i` starts: at the end of the directive before it, or at the start.
pub open spec fn piece_start(directives: Seq<IncludeDirective>, i: int) -> int {
    if i == 0 {
        0
    } else {
        directives[i - 1].end as int
    }
}

/// The directives are in order, do not overlap, lie within `bytes`, and start and end at character boundaries.
pub open spec fn directives_fit(bytes: Seq<u8>, directives: Seq<IncludeDirective>) -> bool {
    forall|i: int|
        0 <= i < directives.len() ==> {
            &&& piece_start(directives, i) <= #[trigger] directives[i].start <= directives[i].end <= bytes.len()
            &&& vstd::utf8::is_char_boundary(bytes, directives[i].start as int)
            &&& vstd::utf8::is_char_boundary(bytes, directives[i].end as int)
        }
}

/// The bytes of `bytes` up to the end of the directive `n - 1`, with each of the first `n` directives replaced by
/// its included bytes.
pub open spec fn spliced_prefix(bytes: Seq<u8>, directives: Seq<IncludeDirective>, included: Seq<Seq<u8>>, n: int) -> Seq<
    u8,
>
    decreases n,
{
    if n <= 0 {
        Seq::empty()
    } else {
        spliced_prefix(bytes, directives, included, n - 1) + bytes.subrange(
            piece_start(directives, n - 1),
            directives[n - 1].start as int,
        ) + included[n - 1]
    }
}

/// The bytes of `bytes` with each directive replaced by its included bytes.
pub open spec fn spliced(bytes: Seq<u8>, directives: Seq<IncludeDirective>, included: Seq<Seq<u8>>) -> Seq<u8> {
    let n = directives.len() as int;
    spliced_prefix(bytes, directives, included, n) + bytes.subrange(piece_start(directives, n), bytes.len() as int)
}

/// Encoding a concatenation of characters concatenates their encodings.
proof fn lemma_encode_utf8_concat(a: Seq<char>, b: Seq<char>)
    ensures
        vstd::utf8::encode_utf8(a + b) == vstd::utf8::encode_utf8(a) + vstd::utf8::encode_utf8(b),
    decreases a.len(),
{
    if a.len() > 0 {
        lemma_encode_utf8_concat(a.drop_first(), b);
        assert((a + b).drop_first() =~= a.drop_first() + b);
        assert((a + b)[0] == a[0]);
    } else {
        assert(a + b =~= b);
    }
}

/// A character boundary of valid UTF-8 bytes, at or after the boundary `pos`, is a character boundary of the bytes
/// from `pos` on, which are valid UTF-8 too.
proof fn lemma_boundary_in_suffix(bytes: Seq<u8>, pos: int, idx: int)
    requires
        vstd::utf8::valid_utf8(bytes),
        vstd::utf8::is_char_boundary(bytes, pos),
        vstd::utf8::is_char_boundary(bytes, idx),
        0 <= pos <= idx <= bytes.len(),
    ensures
        vstd::utf8::valid_utf8(bytes.subrange(pos, bytes.len() as int)),
        vstd::utf8::is_char_boundary(bytes.subrange(pos, bytes.len() as int), idx - pos),
{
    let rest = bytes.subrange(pos, bytes.len() as int);
    vstd::utf8::valid_utf8_split(bytes, pos);
    if idx == bytes.len() {
        vstd::utf8::is_char_boundary_start_end_of_seq(rest);
    } else {
        vstd::utf8::is_char_boundary_iff_not_is_continuation_byte(bytes, idx);
        vstd::utf8::is_char_boundary_iff_not_is_continuation_byte(rest, idx - pos);
        assert(rest[idx - pos] == bytes[idx]);
    }
}

/// Appends `piece` to `out`.
fn append_piece(out: &mut String, piece: &str)
    ensures
        vstd::utf8::encode_utf8(final(out)@) == vstd::utf8::encode_utf8(old(out)@) + piece.spec_bytes(),
{
    out.append(piece);
    proof {
        lemma_encode_utf8_concat(old(out)@, piece@);
    }
}

/// `text` with each directive replaced by the included text of the same position; `None` when the directives are
/// out of order, overlap, reach past the text, or cut a character.
pub fn splice_includes(text: &str, directives: &Vec<IncludeDirective>, included: &Vec<String>) -> (r: Option<String>)
    requires
        directives.len() == included.len(),
    ensures
        r is Some <==> directives_fit(text.spec_bytes(), directives@),
        r matches Some(s) ==> vstd::utf8::encode_utf8(s@) == spliced(
            text.spec_bytes(),
            directives@,
            included@.map_values(|t: String| vstd::utf8::encode_utf8(t@)),
        ),
{
    let ghost bytes = text.spec_bytes();
    let ghost incl = included@.map_values(|t: String| vstd::utf8::encode_utf8(t@));
    let mut out = String::new();
    let mut pos: usize = 0;
    proof {
        vstd::utf8::encode_utf8_valid_utf8(text@);
        vstd::utf8::is_char_boundary_start_end_of_seq(bytes);
    }
    let mut i: usize = 0;
    while i < directives.len()
        invariant
            0 <= i <= directives.len(),
            directives.len() == included.len(),
            bytes == text.spec_bytes(),
            vstd::utf8::valid_utf8(bytes),
            incl == included@.map_values(|t: String| vstd::utf8::encode_utf8(t@)),
            pos == piece_start(directives@, i as int),
            pos <= bytes.len(),
            vstd::utf8::is_char_boundary(bytes, pos as int),
            directives_fit(bytes, directives@.take(i as int)),
            vstd::utf8::encode_utf8(out@) == spliced_prefix(bytes, directives@, incl, i as int),
        decreases directives.len() - i,
    {
        let d = directives[i];
        if !(pos <= d.start && d.start <= d.end && text.is_char_boundary(d.start) && text.is_char_boundary(d.end)) {
            proof {
                assert(!directives_fit(bytes, directives@)) by {
                    assert(directives@[i as int] == d);
                }
            }
            return None;
        }
        proof {
            lemma_boundary_in_suffix(bytes, pos as int, d.start as int);
        }
        let (_, rest) = text.split_at(pos);
        let (piece, _) = rest.split_at(d.start - pos);
        append_piece(&mut out, piece);
        let inc: &str = included[i].as_str();
        append_piece(&mut out, inc);
        proof {
            assert(directives@[i as int] == d);
            assert(piece.spec_bytes() =~= bytes.subrange(pos as int, d.start as int));
            assert(incl[i as int] == inc.spec_bytes());
            assert(directives@.take(i + 1).drop_last() =~= directives@.take(i as int));
            assert(directives_fit(bytes, directives@.take(i + 1))) by {
                assert forall|j: int| 0 <= j < i + 1 implies {
                    &&& piece_start(directives@.take(i + 1), j) <= #[trigger] directives@.take(i + 1)[j].start
                        <= directives@.take(i + 1)[j].end <= bytes.len()
                    &&& vstd::utf8::is_char_boundary(bytes, directives@.take(i + 1)[j].start as int)
                    &&& vstd::utf8::is_char_boundary(bytes, directives@.take(i + 1)[j].end as int)
                } by {
                    if j < i {
                        assert(directives@.take(i + 1)[j] == directives@.take(i as int)[j]);
                        if j > 0 {
                            assert(directives@.take(i + 1)[j - 1] == directives@.take(i as int)[j - 1]);
                        }
                        assert(piece_start(directives@.take(i + 1), j) == piece_start(directives@.take(i as int), j));
                    } else {
                        if j > 0 {
                            assert(directives@.take(i + 1)[j - 1] == directives@[j - 1]);
                        }
                    }
                }
            }
        }
        pos = d.end;
        i = i + 1;
    }
    let (_, rest) = text.split_at(pos);
    append_piece(&mut out, rest);
    proof {
        assert(directives@.take(directives.len() as int) =~= directives@);
        assert(rest.spec_bytes() =~= bytes.subrange(pos as int, bytes.len() as int));
    }
    Some(out)
}

} // verus!
