use vstd::prelude::*;

use crate::text::{chars_of, split_char, split_on, trim, trimmed};

verus! {

/// The marker that stands for an empty path component and ends every path.
pub open spec fn root() -> Seq<char> {
    seq!['/']
}

/// A path component as a segment: blank components become the root marker.
pub open spec fn segment_text(piece: Seq<char>) -> Seq<char> {
    if trim(piece).len() == 0 {
        root()
    } else {
        piece
    }
}

/// The segments of a path: its `/`-separated components, blank ones turned into
/// the root marker, with a root marker added at the end unless one is there.
pub open spec fn path_segments(p: Seq<char>) -> Seq<Seq<char>> {
    let pieces = split_on(p, '/').map_values(|x: Seq<char>| segment_text(x));
    if pieces.len() > 0 && pieces.last() == root() {
        pieces
    } else {
        pieces.push(root())
    }
}

/// A segment that starts with `:` names a parameter.
pub open spec fn is_parameter(s: Seq<char>) -> bool {
    s.len() > 0 && s[0] == ':'
}

/// A compiled path segment.
pub enum SegmentPattern {
    Parameter(Seq<char>),
    Literal(Seq<char>),
}

pub open spec fn pattern_of(s: Seq<char>) -> SegmentPattern {
    if is_parameter(s) {
        SegmentPattern::Parameter(s)
    } else {
        SegmentPattern::Literal(s)
    }
}

/// The compiled form of a route path.
pub open spec fn compile(p: Seq<char>) -> Seq<SegmentPattern> {
    path_segments(p).map_values(|s: Seq<char>| pattern_of(s))
}

/// A literal matches the same text; a parameter matches any non-blank segment but
/// the root marker.
pub open spec fn segment_matches(pat: SegmentPattern, s: Seq<char>) -> bool {
    match pat {
        SegmentPattern::Literal(t) => t == s,
        SegmentPattern::Parameter(_) => s != root() && trim(s).len() > 0,
    }
}

/// A request path matches compiled segments when it has as many segments and each
/// one matches.
pub open spec fn path_matches(pats: Seq<SegmentPattern>, path: Seq<char>) -> bool {
    let segs = path_segments(path);
    &&& segs.len() == pats.len()
    &&& forall|i: int| 0 <= i < segs.len() ==> segment_matches(#[trigger] pats[i], segs[i])
}

/// No piece of `split_on(s, c)` holds `c`.
pub proof fn lemma_split_on_pieces(s: Seq<char>, c: char)
    ensures
        forall|i: int| 0 <= i < split_on(s, c).len() ==> !(#[trigger] split_on(s, c)[i]).contains(c),
    decreases s.len(),
{
    if s.len() > 0 {
        lemma_split_on_pieces(s.drop_last(), c);
        let p = split_on(s.drop_last(), c);
        crate::text::lemma_split_on_len(s.drop_last(), c);
        if s.last() != c {
            assert forall|i: int| 0 <= i < split_on(s, c).len() implies !(#[trigger] split_on(
                s,
                c,
            )[i]).contains(c) by {
                if i == p.len() - 1 {
                    let q = p.last().push(s.last());
                    assert(q == split_on(s, c)[i]);
                    if q.contains(c) {
                        let k = choose|k: int| 0 <= k < q.len() && q[k] == c;
                        if k < p.last().len() {
                            assert(p.last()[k] == c);
                        }
                    }
                }
            }
        } else {
            assert forall|i: int| 0 <= i < split_on(s, c).len() implies !(#[trigger] split_on(
                s,
                c,
            )[i]).contains(c) by {
                if i < p.len() {
                    assert(split_on(s, c)[i] == p[i]);
                }
            }
        }
    }
}

/// A path and the same path with a `/` added match the same mappings, unless the
/// path already ends in a blank component (such as `/a/` or `/a/ `).
pub proof fn lemma_trailing_slash(pats: Seq<SegmentPattern>, p: Seq<char>)
    requires
        trim(split_on(p, '/').last()).len() > 0,
    ensures
        path_segments(p.push('/')) == path_segments(p),
        path_matches(pats, p.push('/')) == path_matches(pats, p),
{
    let q = p.push('/');
    assert(q.drop_last() =~= p);
    crate::text::lemma_split_on_len(p, '/');
    lemma_split_on_pieces(p, '/');
    let pieces = split_on(p, '/');
    let last = pieces.last();
    assert(!last.contains('/'));
    assert(last != root()) by {
        if last == root() {
            assert(last[0] == '/');
        }
    }
    let mapped = pieces.map_values(|x: Seq<char>| segment_text(x));
    assert(mapped.last() == last);
    assert(trim(Seq::<char>::empty()) =~= Seq::<char>::empty());
    assert(split_on(q, '/') == pieces.push(Seq::empty()));
    assert(split_on(q, '/').map_values(|x: Seq<char>| segment_text(x)) =~= mapped.push(root()));
}

/// A compiled path segment.
#[derive(Debug)]
pub enum HTTPPath {
    Parameterized(String),
    Plain(String),
}

impl View for HTTPPath {
    type V = SegmentPattern;

    open spec fn view(&self) -> SegmentPattern {
        match self {
            HTTPPath::Parameterized(s) => SegmentPattern::Parameter(s@),
            HTTPPath::Plain(s) => SegmentPattern::Literal(s@),
        }
    }
}

/// How a segment matched: a literal, or a parameter with the text it stood for.
#[derive(Debug)]
pub enum MatchedPath {
    Plain,
    Parameterized { key: String, value: String },
}

impl HTTPPath {
    /// Matches one segment of a request path against this segment.
    pub fn match_segment(&self, path: &str) -> (r: Option<MatchedPath>)
        ensures
            r is Some <==> segment_matches(self@, path@),
            r matches Some(MatchedPath::Parameterized { key, value }) ==> self@
                == SegmentPattern::Parameter(key@) && value@ == path@,
            r matches Some(MatchedPath::Plain) ==> self@ is Literal,
    {
        proof {
            reveal_strlit("/");
            assert("/"@ =~= root());
        }
        match self {
            HTTPPath::Parameterized(segment) => {
                let blank = trimmed(path).as_str().is_empty();
                if blank || path.to_owned() == String::from_str("/") {
                    None
                } else {
                    Some(MatchedPath::Parameterized { key: segment.clone(), value: path.to_owned() })
                }
            },
            HTTPPath::Plain(segment) => {
                if path.to_owned() == *segment {
                    Some(MatchedPath::Plain)
                } else {
                    None
                }
            },
        }
    }
}

/// Whether a path segment names a parameter: it starts with `:`.
pub fn is_parameterized_path(path: &str) -> (r: bool)
    ensures
        r == is_parameter(path@),
{
    let cs = chars_of(path);
    cs.len() > 0 && cs[0] == ':'
}

/// The segments of a path.
pub fn split_path(path: &str) -> (r: Vec<String>)
    ensures
        r.deep_view() == path_segments(path@),
        r@.len() >= 1,
{
    proof {
        reveal_strlit("/");
        assert("/"@ =~= root());
        crate::text::lemma_split_on_len(path@, '/');
    }
    let pieces = split_char(path, '/');
    let ghost mapped = pieces.deep_view().map_values(|x: Seq<char>| segment_text(x));
    let mut r: Vec<String> = Vec::new();
    let mut i: usize = 0;
    while i < pieces.len()
        invariant
            i <= pieces@.len(),
            "/"@ == root(),
            mapped == pieces.deep_view().map_values(|x: Seq<char>| segment_text(x)),
            r.deep_view() == mapped.take(i as int),
        decreases pieces.len() - i,
    {
        let ghost prev = r.deep_view();
        assert(mapped[i as int] == segment_text(pieces@[i as int]@));
        let t = trimmed(pieces[i].as_str());
        if t.as_str().is_empty() {
            r.push(String::from_str("/"));
        } else {
            r.push(pieces[i].clone());
        }
        assert(r.deep_view() =~= prev.push(mapped[i as int]));
        i = i + 1;
        assert(r.deep_view() =~= mapped.take(i as int));
    }
    assert(mapped.take(i as int) =~= mapped);
    let n = r.len();
    let ends_with_root = n > 0 && r[n - 1] == String::from_str("/");
    if !ends_with_root {
        let ghost prev = r.deep_view();
        r.push(String::from_str("/"));
        assert(r.deep_view() =~= prev.push(root()));
    }
    r
}

/// The compiled segments of a route path.
pub fn build_paths(path: &str) -> (r: Vec<HTTPPath>)
    ensures
        r@.map_values(|p: HTTPPath| p@) == compile(path@),
{
    let segments = split_path(path);
    let mut r: Vec<HTTPPath> = Vec::new();
    let mut i: usize = 0;
    while i < segments.len()
        invariant
            i <= segments@.len(),
            segments.deep_view() == path_segments(path@),
            r@.map_values(|p: HTTPPath| p@) == compile(path@).take(i as int),
        decreases segments.len() - i,
    {
        let ghost prev = r@.map_values(|p: HTTPPath| p@);
        if is_parameterized_path(segments[i].as_str()) {
            r.push(HTTPPath::Parameterized(segments[i].clone()));
        } else {
            r.push(HTTPPath::Plain(segments[i].clone()));
        }
        assert(r@.map_values(|p: HTTPPath| p@) =~= prev.push(pattern_of(segments@[i as int]@)));
        i = i + 1;
        assert(r@.map_values(|p: HTTPPath| p@) =~= compile(path@).take(i as int));
    }
    assert(compile(path@).take(i as int) =~= compile(path@));
    r
}

/// Whether a request path matches compiled segments.
pub fn match_segments(segments: &Vec<HTTPPath>, path: &str) -> (r: bool)
    ensures
        r == path_matches(segments@.map_values(|p: HTTPPath| p@), path@),
{
    let split_paths = split_path(path);
    let ghost pats = segments@.map_values(|p: HTTPPath| p@);
    if split_paths.len() != segments.len() {
        return false;
    }
    let mut i: usize = 0;
    while i < segments.len()
        invariant
            i <= segments@.len(),
            split_paths@.len() == segments@.len(),
            split_paths.deep_view() == path_segments(path@),
            pats == segments@.map_values(|p: HTTPPath| p@),
            forall|j: int| 0 <= j < i ==> segment_matches(#[trigger] pats[j], path_segments(path@)[j]),
        decreases segments.len() - i,
    {
        assert(split_paths.deep_view()[i as int] == split_paths@[i as int]@);
        assert(pats[i as int] == segments@[i as int]@);
        if segments[i].match_segment(split_paths[i].as_str()).is_none() {
            assert(!segment_matches(pats[i as int], path_segments(path@)[i as int]));
            return false;
        }
        i = i + 1;
    }
    true
}

} // verus!
