use vstd::prelude::*;
use vstd::std_specs::iter::IteratorSpec;

verus! {

/// The model of one path segment.
pub enum SegmentV {
    Up,
    Id(Seq<char>),
    RawId(Seq<char>),
    NumId(Seq<char>),
}

/// One segment of a parsed path: a step up (`..`), an identifier, a
/// bracketed key, or a numeric segment usable both as key and as index.
#[derive(Debug)]
pub enum PathSegment {
    Up,
    Id(String),
    RawId(String),
    NumId(String),
}

impl View for PathSegment {
    type V = SegmentV;

    open spec fn view(&self) -> SegmentV {
        match self {
            PathSegment::Up => SegmentV::Up,
            PathSegment::Id(s) => SegmentV::Id(s@),
            PathSegment::RawId(s) => SegmentV::RawId(s@),
            PathSegment::NumId(s) => SegmentV::NumId(s@),
        }
    }
}

pub open spec fn segs_view(v: Seq<PathSegment>) -> Seq<SegmentV> {
    v.map_values(|p: PathSegment| p@)
}

pub open spec fn is_digit(c: char) -> bool {
    '0' <= c <= '9'
}

pub open spec fn is_id_char(c: char) -> bool {
    is_digit(c) || ('a' <= c <= 'z') || ('A' <= c <= 'Z') || c == '_'
}

/// A non-empty run of decimal digits.
pub open spec fn all_digits(t: Seq<char>) -> bool {
    t.len() > 0 && forall|j: int| 0 <= j < t.len() ==> is_digit(#[trigger] t[j])
}

/// First index at or after `i` that does not hold an identifier character.
pub open spec fn id_end(s: Seq<char>, i: int) -> int
    decreases s.len() - i,
{
    if i < 0 || i >= s.len() || !is_id_char(s[i]) {
        i
    } else {
        id_end(s, i + 1)
    }
}

/// First index at or after `i` that holds `c`, or the length.
pub open spec fn find_char(s: Seq<char>, i: int, c: char) -> int
    decreases s.len() - i,
{
    if i < 0 || i >= s.len() || s[i] == c {
        i
    } else {
        find_char(s, i + 1, c)
    }
}

/// The segment an identifier makes: numeric when it is all digits.
pub open spec fn word_seg(t: Seq<char>) -> SegmentV {
    if all_digits(t) {
        SegmentV::NumId(t)
    } else {
        SegmentV::Id(t)
    }
}

/// The segment an unquoted bracketed key makes.
pub open spec fn bracket_seg(t: Seq<char>) -> SegmentV {
    if all_digits(t) {
        SegmentV::NumId(t)
    } else {
        SegmentV::RawId(t)
    }
}

pub open spec fn prefixed(p: Seq<SegmentV>, r: Option<Seq<SegmentV>>) -> Option<Seq<SegmentV>> {
    match r {
        Some(x) => Some(p + x),
        None => None,
    }
}

/// The segments of `s` from position `i` on, or `None` where the text does
/// not follow the path grammar. `.` and `/` separate segments, `..` steps up,
/// identifiers are runs of letters, digits and `_`, and a key in brackets is
/// written `[key]`, `["key"]` or `['key']`.
pub open spec fn parse_from(s: Seq<char>, i: int) -> Option<Seq<SegmentV>>
    decreases s.len() - i,
{
    if i < 0 || i >= s.len() {
        Some(Seq::empty())
    } else if s[i] == '.' && i + 1 < s.len() && s[i + 1] == '.' {
        prefixed(seq![SegmentV::Up], parse_from(s, i + 2))
    } else if s[i] == '.' || s[i] == '/' {
        parse_from(s, i + 1)
    } else if is_id_char(s[i]) {
        let e = id_end(s, i + 1);
        if e <= i || e > s.len() {
            None
        } else {
            prefixed(seq![word_seg(s.subrange(i, e))], parse_from(s, e))
        }
    } else if s[i] == '[' {
        if i + 1 < s.len() && (s[i + 1] == '"' || s[i + 1] == '\'') {
            let e = find_char(s, i + 2, s[i + 1]);
            if e <= i || e + 1 >= s.len() || s[e + 1] != ']' {
                None
            } else {
                prefixed(seq![SegmentV::RawId(s.subrange(i + 2, e))], parse_from(s, e + 2))
            }
        } else {
            let e = find_char(s, i + 1, ']');
            if e <= i || e >= s.len() {
                None
            } else {
                prefixed(seq![bracket_seg(s.subrange(i + 1, e))], parse_from(s, e + 1))
            }
        }
    } else {
        None
    }
}

/// The segments of a whole path; an empty path is no path.
pub open spec fn parse_path_spec(s: Seq<char>) -> Option<Seq<SegmentV>> {
    if s.len() == 0 {
        None
    } else {
        parse_from(s, 0)
    }
}

proof fn lemma_prefixed_push(p: Seq<SegmentV>, x: SegmentV, r: Option<Seq<SegmentV>>)
    ensures
        prefixed(p, prefixed(seq![x], r)) == prefixed(p.push(x), r),
{
    if r is Some {
        assert(p + (seq![x] + r->0) =~= p.push(x) + r->0);
    }
}

proof fn lemma_id_end(s: Seq<char>, i: int)
    requires
        0 <= i <= s.len(),
    ensures
        i <= id_end(s, i) <= s.len(),
        forall|j: int| i <= j < id_end(s, i) ==> is_id_char(#[trigger] s[j]),
    decreases s.len() - i,
{
    if i < s.len() && is_id_char(s[i]) {
        lemma_id_end(s, i + 1);
    }
}

proof fn lemma_find_char(s: Seq<char>, i: int, c: char)
    requires
        0 <= i <= s.len(),
    ensures
        i <= find_char(s, i, c) <= s.len(),
        find_char(s, i, c) < s.len() ==> s[find_char(s, i, c)] == c,
    decreases s.len() - i,
{
    if i < s.len() && s[i] != c {
        lemma_find_char(s, i + 1, c);
    }
}

/// The characters of `s`, one by one.
pub fn chars_of(s: &str) -> (r: Vec<char>)
    ensures
        r@ == s@,
{
    broadcast use vstd::string::axiom_spec_iter, vstd::string::next_postcondition;

    let mut out: Vec<char> = Vec::new();
    let mut it = s.chars();
    loop
        invariant
            out@ + it.remaining() == s@,
        ensures
            out@ == s@,
        decreases s@.len() - out@.len(),
    {
        let ghost before = it.remaining();
        match it.next() {
            Some(c) => {
                out.push(c);
                assert(out@ + it.remaining() =~= s@) by {
                    assert(before =~= seq![c] + it.remaining());
                }
            },
            None => {
                assert(out@ =~= s@);
                break;
            },
        }
    }
    out
}

/// A string of the characters `cs[a..b]`.
pub fn string_of(cs: &Vec<char>, a: usize, b: usize) -> (r: String)
    requires
        a <= b <= cs.len(),
    ensures
        r@ == cs@.subrange(a as int, b as int),
{
    let mut out = String::new();
    let mut i: usize = a;
    while i < b
        invariant
            a <= i <= b <= cs.len(),
            out@ == cs@.subrange(a as int, i as int),
        decreases b - i,
    {
        out.push(cs[i]);
        i += 1;
        assert(out@ =~= cs@.subrange(a as int, i as int));
    }
    out
}

fn digits_only(cs: &Vec<char>, a: usize, b: usize) -> (r: bool)
    requires
        a <= b <= cs.len(),
    ensures
        r == all_digits(cs@.subrange(a as int, b as int)),
{
    if a == b {
        return false;
    }
    let mut i: usize = a;
    while i < b
        invariant
            a <= i <= b <= cs.len(),
            forall|j: int| a <= j < i ==> is_digit(#[trigger] cs@[j]),
        decreases b - i,
    {
        if !('0' <= cs[i] && cs[i] <= '9') {
            assert(!is_digit(cs@.subrange(a as int, b as int)[i - a]));
            return false;
        }
        i += 1;
    }
    assert forall|j: int| 0 <= j < b - a implies is_digit(
        #[trigger] cs@.subrange(a as int, b as int)[j],
    ) by {
        assert(cs@.subrange(a as int, b as int)[j] == cs@[a + j]);
    }
    true
}

fn is_id_char_exec(c: char) -> (r: bool)
    ensures
        r == is_id_char(c),
{
    ('0' <= c && c <= '9') || ('a' <= c && c <= 'z') || ('A' <= c && c <= 'Z') || c == '_'
}

fn id_end_exec(cs: &Vec<char>, i: usize) -> (r: usize)
    requires
        i <= cs.len(),
    ensures
        r == id_end(cs@, i as int),
{
    let mut j: usize = i;
    while j < cs.len() && is_id_char_exec(cs[j])
        invariant
            i <= j <= cs.len(),
            id_end(cs@, i as int) == id_end(cs@, j as int),
        decreases cs.len() - j,
    {
        j += 1;
    }
    j
}

fn find_char_exec(cs: &Vec<char>, i: usize, c: char) -> (r: usize)
    requires
        i <= cs.len(),
    ensures
        r == find_char(cs@, i as int, c),
{
    let mut j: usize = i;
    while j < cs.len() && cs[j] != c
        invariant
            i <= j <= cs.len(),
            find_char(cs@, i as int, c) == find_char(cs@, j as int, c),
        decreases cs.len() - j,
    {
        j += 1;
    }
    j
}

/// Parses a path into its segments; `None` when the text is empty or does
/// not follow the path grammar.
pub fn parse_path(path: &str) -> (r: Option<Vec<PathSegment>>)
    ensures
        r is Some <==> parse_path_spec(path@) is Some,
        r is Some ==> segs_view(r->0@) == parse_path_spec(path@)->0,
{
    let cs = chars_of(path);
    let n = cs.len();
    if n == 0 {
        return None;
    }
    let ghost s = cs@;
    let mut out: Vec<PathSegment> = Vec::new();
    let mut i: usize = 0;
    while i < n
        invariant
            s == cs@,
            s == path@,
            n == s.len(),
            i <= n,
            parse_from(s, 0) == prefixed(segs_view(out@), parse_from(s, i as int)),
        decreases n - i,
    {
        let ghost before = segs_view(out@);
        let c = cs[i];
        if c == '.' && i + 1 < n && cs[i + 1] == '.' {
            proof {
                lemma_prefixed_push(before, SegmentV::Up, parse_from(s, i + 2));
            }
            out.push(PathSegment::Up);
            assert(segs_view(out@) =~= before.push(SegmentV::Up));
            i = i + 2;
        } else if c == '.' || c == '/' {
            i = i + 1;
        } else if is_id_char_exec(c) {
            let e = id_end_exec(&cs, i + 1);
            proof {
                lemma_id_end(s, i + 1);
            }
            let t = string_of(&cs, i, e);
            let seg = if digits_only(&cs, i, e) {
                PathSegment::NumId(t)
            } else {
                PathSegment::Id(t)
            };
            proof {
                lemma_prefixed_push(before, seg@, parse_from(s, e as int));
            }
            out.push(seg);
            assert(segs_view(out@) =~= before.push(seg@));
            i = e;
        } else if c == '[' {
            if i + 1 < n && (cs[i + 1] == '"' || cs[i + 1] == '\'') {
                let q = cs[i + 1];
                let e = find_char_exec(&cs, i + 2, q);
                proof {
                    lemma_find_char(s, i + 2, q);
                }
                if e >= n || e + 1 >= n || cs[e + 1] != ']' {
                    return None;
                }
                let seg = PathSegment::RawId(string_of(&cs, i + 2, e));
                proof {
                    lemma_prefixed_push(before, seg@, parse_from(s, e + 2));
                }
                out.push(seg);
                assert(segs_view(out@) =~= before.push(seg@));
                i = e + 2;
            } else {
                let e = find_char_exec(&cs, i + 1, ']');
                proof {
                    lemma_find_char(s, i + 1, ']');
                }
                if e >= n {
                    return None;
                }
                let t = string_of(&cs, i + 1, e);
                let seg = if digits_only(&cs, i + 1, e) {
                    PathSegment::NumId(t)
                } else {
                    PathSegment::RawId(t)
                };
                proof {
                    lemma_prefixed_push(before, seg@, parse_from(s, e + 1));
                }
                out.push(seg);
                assert(segs_view(out@) =~= before.push(seg@));
                i = e + 1;
            }
        } else {
            return None;
        }
    }
    assert(parse_from(s, n as int) == Some(Seq::<SegmentV>::empty()));
    assert(segs_view(out@) + Seq::<SegmentV>::empty() =~= segs_view(out@));
    Some(out)
}

} // verus!
