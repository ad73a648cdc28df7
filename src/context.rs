use vstd::prelude::*;
use std::collections::VecDeque;
use crate::json::{
    Json, JsonV, Object, obj_get, obj_insert, str_eq, lemma_index_from_range, key_index, index_from,
};
use crate::path::{
    SegmentV, PathSegment, parse_path, parse_path_spec, parse_from, segs_view, all_digits, is_digit,
    id_end, word_seg, chars_of, string_of,
};

verus! {

/// Holds the root value that templates render over.
#[derive(Debug)]
pub struct Context {
    data: Json,
}

pub open spec fn this_chars() -> Seq<char> {
    seq!['t', 'h', 'i', 's']
}

// ---------------------------------------------------------------------------
// The model of navigation
/// The name stack after one segment: `Up` drops the last name, any other
/// segment pushes its name.
pub open spec fn stack_step(st: Seq<Seq<char>>, seg: SegmentV) -> Seq<Seq<char>> {
    match seg {
        SegmentV::Up => if st.len() > 0 {
            st.drop_last()
        } else {
            st
        },
        SegmentV::Id(n) => st.push(n),
        SegmentV::RawId(n) => st.push(n),
        SegmentV::NumId(n) => st.push(n),
    }
}

pub open spec fn apply_segs(st: Seq<Seq<char>>, segs: Seq<SegmentV>) -> Seq<Seq<char>>
    decreases segs.len(),
{
    if segs.len() == 0 {
        st
    } else {
        stack_step(apply_segs(st, segs.drop_last()), segs.last())
    }
}

/// How many `Up` segments open the path.
pub open spec fn leading_ups(segs: Seq<SegmentV>) -> nat
    decreases segs.len(),
{
    if segs.len() > 0 && segs[0] is Up {
        1 + leading_ups(segs.drop_first())
    } else {
        0
    }
}

/// The segments of a base path; one that does not parse contributes none.
pub open spec fn base_segs(p: Seq<char>) -> Seq<SegmentV> {
    match parse_path_spec(p) {
        Some(s) => s,
        None => Seq::empty(),
    }
}

/// The path navigation starts from: with `d` leading `Up` segments, the
/// stacked root at `d - 1` when there is one, else the base path.
pub open spec fn start_path(base: Seq<char>, roots: Seq<Seq<char>>, rel: Seq<SegmentV>) -> Seq<
    char,
> {
    let d = leading_ups(rel);
    if d >= 1 && d - 1 < roots.len() {
        roots[d - 1]
    } else {
        base
    }
}

/// The names walked for a relative path, or `None` when it does not parse.
pub open spec fn nav_names(base: Seq<char>, roots: Seq<Seq<char>>, rel: Seq<char>) -> Option<
    Seq<Seq<char>>,
> {
    match parse_path_spec(rel) {
        None => None,
        Some(r) => Some(apply_segs(apply_segs(Seq::empty(), base_segs(start_path(base, roots, r))), r)),
    }
}

/// The value of a decimal digit string.
pub open spec fn digits_value(t: Seq<char>) -> nat
    decreases t.len(),
{
    if t.len() == 0 {
        0
    } else {
        digits_value(t.drop_last()) * 10 + ((t.last() as u32 - '0' as u32) as nat)
    }
}

/// The digits of an index as written: an optional leading `+` is dropped.
pub open spec fn index_text(t: Seq<char>) -> Seq<char> {
    if t.len() > 0 && t[0] == '+' {
        t.drop_first()
    } else {
        t
    }
}

/// Whether `name` reads as an unsigned index: decimal digits, optionally
/// after one `+`.
pub open spec fn is_index(name: Seq<char>) -> bool {
    all_digits(index_text(name))
}

/// One step of the walk: `this` passes through unless the value is an object
/// with a `this` key; arrays are indexed by names that read as unsigned
/// integers, objects by key; anything missing is null.
pub open spec fn nav_step(v: JsonV, name: Seq<char>) -> JsonV {
    if name == this_chars() && !(v is Object && obj_get(v->Object_0, name) is Some) {
        v
    } else {
        match v {
            JsonV::Array(a) => if is_index(name) && digits_value(index_text(name)) < a.len() {
                a[digits_value(index_text(name)) as int]
            } else {
                JsonV::Null
            },
            JsonV::Object(m) => match obj_get(m, name) {
                Some(x) => x,
                None => JsonV::Null,
            },
            _ => JsonV::Null,
        }
    }
}

pub open spec fn walk(v: JsonV, names: Seq<Seq<char>>) -> JsonV
    decreases names.len(),
{
    if names.len() == 0 {
        v
    } else {
        walk(nav_step(v, names[0]), names.drop_first())
    }
}

/// What `navigate` finds: the walk of the names, or null for a path that
/// does not parse.
pub open spec fn nav_spec(data: JsonV, base: Seq<char>, roots: Seq<Seq<char>>, rel: Seq<char>) -> JsonV {
    match nav_names(base, roots, rel) {
        None => JsonV::Null,
        Some(ns) => walk(data, ns),
    }
}

pub open spec fn roots_view(r: Seq<String>) -> Seq<Seq<char>> {
    r.map_values(|s: String| s@)
}

// ---------------------------------------------------------------------------
// The model of extension
/// The entries after inserting each of `add` in order.
pub open spec fn insert_all(m: Seq<(Seq<char>, JsonV)>, add: Seq<(Seq<char>, JsonV)>) -> Seq<
    (Seq<char>, JsonV),
>
    decreases add.len(),
{
    if add.len() == 0 {
        m
    } else {
        obj_insert(insert_all(m, add.drop_last()), add.last().0, add.last().1)
    }
}

/// The entries that extension starts from: an object's own entries, or any
/// other value under the key `this`.
pub open spec fn merge_base(base: JsonV) -> Seq<(Seq<char>, JsonV)> {
    match base {
        JsonV::Object(m) => m,
        _ => seq![(this_chars(), base)],
    }
}

pub open spec fn merge_spec(base: JsonV, add: Seq<(Seq<char>, JsonV)>) -> JsonV {
    JsonV::Object(insert_all(merge_base(base), add))
}

// ---------------------------------------------------------------------------
// Laws of navigation
/// `this` read from the top passes through to the root value when the root
/// is an object without a `this` key, and reads that key when there is one.
pub proof fn lemma_this_pass_through(data: JsonV)
    requires
        data is Object,
    ensures
        obj_get(data->Object_0, this_chars()) is None ==> nav_spec(
            data,
            seq!['.'],
            Seq::empty(),
            this_chars(),
        ) == data,
        obj_get(data->Object_0, this_chars()) is Some ==> nav_spec(
            data,
            seq!['.'],
            Seq::empty(),
            this_chars(),
        ) == obj_get(data->Object_0, this_chars())->0,
{
    let t = this_chars();
    assert(id_end(t, 4) == 4);
    assert(id_end(t, 3) == 4);
    assert(id_end(t, 2) == 4);
    assert(id_end(t, 1) == 4);
    assert(t.subrange(0, 4) =~= t);
    assert(!is_digit(t[0]));
    assert(word_seg(t) == SegmentV::Id(t));
    assert(parse_from(t, 4) == Some(Seq::<SegmentV>::empty()));
    assert(seq![SegmentV::Id(t)] + Seq::<SegmentV>::empty() =~= seq![SegmentV::Id(t)]);
    assert(parse_path_spec(t) == Some(seq![SegmentV::Id(t)]));
    assert(leading_ups(seq![SegmentV::Id(t)]) == 0);
    let dot = seq!['.'];
    assert(parse_from(dot, 1) == Some(Seq::<SegmentV>::empty()));
    assert(parse_path_spec(dot) == Some(Seq::<SegmentV>::empty()));
    assert(apply_segs(Seq::empty(), Seq::<SegmentV>::empty()) == Seq::<Seq<char>>::empty());
    let r = seq![SegmentV::Id(t)];
    assert(r.drop_last() =~= Seq::<SegmentV>::empty());
    assert(apply_segs(Seq::empty(), r) =~= seq![t]);
    assert(nav_names(dot, Seq::empty(), t) == Some(seq![t]));
    assert(seq![t].drop_first() =~= Seq::<Seq<char>>::empty());
    assert(walk(data, seq![t]) == walk(nav_step(data, t), Seq::<Seq<char>>::empty()));
}

/// `c` is an element of the array or a value of the object `v`.
pub open spec fn child_of(c: JsonV, v: JsonV) -> bool {
    match v {
        JsonV::Array(a) => exists|i: int| 0 <= i < a.len() && a[i] == c,
        JsonV::Object(m) => exists|i: int| 0 <= i < m.len() && m[i].1 == c,
        _ => false,
    }
}

/// `c` is `v` itself or lies inside it at most `n` steps down.
pub open spec fn nested_in(c: JsonV, v: JsonV, n: nat) -> bool
    decreases n,
{
    c == v || (n > 0 && exists|d: JsonV| #[trigger] child_of(d, v) && nested_in(c, d, (n - 1) as nat))
}

proof fn lemma_nested_more(c: JsonV, v: JsonV, n: nat)
    requires
        nested_in(c, v, n),
    ensures
        nested_in(c, v, n + 1),
    decreases n,
{
    if c != v {
        let d = choose|d: JsonV| #[trigger] child_of(d, v) && nested_in(c, d, (n - 1) as nat);
        lemma_nested_more(c, d, (n - 1) as nat);
        assert(child_of(d, v) && nested_in(c, d, n));
    }
}

proof fn lemma_nav_step_shape(v: JsonV, name: Seq<char>)
    ensures
        nav_step(v, name) is Null || nav_step(v, name) == v || child_of(nav_step(v, name), v),
{
    let r = nav_step(v, name);
    if !(name == this_chars() && !(v is Object && obj_get(v->Object_0, name) is Some)) {
        match v {
            JsonV::Array(a) => {
                if is_index(name) && digits_value(index_text(name)) < a.len() {
                    let i = digits_value(index_text(name)) as int;
                    assert(a[i] == r);
                }
            },
            JsonV::Object(m) => {
                lemma_index_from_range(m, name, 0);
                if obj_get(m, name) is Some {
                    assert(m[key_index(m, name)].1 == r);
                }
            },
            _ => {},
        }
    }
}

proof fn lemma_walk_null(names: Seq<Seq<char>>)
    ensures
        walk(JsonV::Null, names) == JsonV::Null,
    decreases names.len(),
{
    if names.len() > 0 {
        lemma_walk_null(names.drop_first());
    }
}

proof fn lemma_walk_nested(v: JsonV, names: Seq<Seq<char>>)
    ensures
        walk(v, names) is Null || nested_in(walk(v, names), v, names.len()),
    decreases names.len(),
{
    if names.len() > 0 {
        let v1 = nav_step(v, names[0]);
        let rest = names.drop_first();
        let w = walk(v, names);
        lemma_nav_step_shape(v, names[0]);
        lemma_walk_nested(v1, rest);
        if v1 is Null {
            lemma_walk_null(rest);
        } else if v1 == v {
            if !(w is Null) {
                lemma_nested_more(w, v, rest.len());
            }
        } else {
            if !(w is Null) {
                assert(child_of(v1, v) && nested_in(w, v1, rest.len()));
            }
        }
    }
}

/// Navigation never fails: what it finds is null, the root value, or a value
/// nested inside the root.
pub proof fn lemma_navigation_total(
    data: JsonV,
    base: Seq<char>,
    roots: Seq<Seq<char>>,
    rel: Seq<char>,
)
    ensures
        nav_spec(data, base, roots, rel) is Null || (nav_names(base, roots, rel) is Some
            && nested_in(
            nav_spec(data, base, roots, rel),
            data,
            nav_names(base, roots, rel)->0.len(),
        )),
{
    if nav_names(base, roots, rel) is Some {
        lemma_walk_nested(data, nav_names(base, roots, rel)->0);
    }
}

/// A path that opens with `d` steps up starts from the `d`-th stacked root
/// when there is one: the base path plays no part, so the result is that of
/// navigating from that root.
pub proof fn lemma_parent_root_override(
    data: JsonV,
    base: Seq<char>,
    roots: Seq<Seq<char>>,
    rel: Seq<char>,
)
    requires
        parse_path_spec(rel) is Some,
        leading_ups(parse_path_spec(rel)->0) >= 1,
        leading_ups(parse_path_spec(rel)->0) - 1 < roots.len(),
    ensures
        nav_spec(data, base, roots, rel) == nav_spec(
            data,
            roots[leading_ups(parse_path_spec(rel)->0) - 1],
            Seq::empty(),
            rel,
        ),
{
}


// ---------------------------------------------------------------------------
// Laws of extension
/// The value of the last entry of `h` under `k`.
pub open spec fn last_value(h: Seq<(Seq<char>, JsonV)>, k: Seq<char>) -> Option<JsonV>
    decreases h.len(),
{
    if h.len() == 0 {
        None
    } else if h.last().0 == k {
        Some(h.last().1)
    } else {
        last_value(h.drop_last(), k)
    }
}

/// `m` with every first entry of a key that `h` holds set to `h`'s last value for it.
pub open spec fn overlay_in_place(m: Seq<(Seq<char>, JsonV)>, h: Seq<(Seq<char>, JsonV)>) -> Seq<
    (Seq<char>, JsonV),
> {
    Seq::new(
        m.len(),
        |i: int|
            (
                m[i].0,
                if key_index(m, m[i].0) == i && last_value(h, m[i].0) is Some {
                    last_value(h, m[i].0)->0
                } else {
                    m[i].1
                },
            ),
    )
}

proof fn lemma_index_same_keys(
    m: Seq<(Seq<char>, JsonV)>,
    n: Seq<(Seq<char>, JsonV)>,
    k: Seq<char>,
    i: int,
)
    requires
        m.len() == n.len(),
        forall|j: int| 0 <= j < m.len() ==> #[trigger] m[j].0 == n[j].0,
    ensures
        index_from(m, k, i) == index_from(n, k, i),
    decreases m.len() - i,
{
    if 0 <= i < m.len() && m[i].0 != k {
        lemma_index_same_keys(m, n, k, i + 1);
    }
}

proof fn lemma_index_push(m: Seq<(Seq<char>, JsonV)>, x: (Seq<char>, JsonV), k: Seq<char>, i: int)
    requires
        0 <= i <= m.len(),
    ensures
        index_from(m.push(x), k, i) == (if index_from(m, k, i) >= 0 {
            index_from(m, k, i)
        } else if x.0 == k {
            m.len() as int
        } else {
            -1
        }),
    decreases m.len() - i,
{
    let p = m.push(x);
    if i < m.len() {
        assert(p[i] == m[i]);
        if m[i].0 != k {
            lemma_index_push(m, x, k, i + 1);
        }
    } else {
        assert(p[i] == x);
        assert(index_from(p, k, i + 1) == -1);
    }
}

proof fn lemma_insert_keys(m: Seq<(Seq<char>, JsonV)>, k: Seq<char>, v: JsonV)
    requires
        key_index(m, k) >= 0,
    ensures
        obj_insert(m, k, v).len() == m.len(),
        forall|j: int| 0 <= j < m.len() ==> #[trigger] obj_insert(m, k, v)[j].0 == m[j].0,
{
    lemma_index_from_range(m, k, 0);
}

proof fn lemma_get_insert_same(m: Seq<(Seq<char>, JsonV)>, k: Seq<char>, v: JsonV)
    ensures
        obj_get(obj_insert(m, k, v), k) == Some(v),
        key_index(obj_insert(m, k, v), k) >= 0,
{
    lemma_index_from_range(m, k, 0);
    if key_index(m, k) < 0 {
        lemma_index_push(m, (k, v), k, 0);
    } else {
        lemma_insert_keys(m, k, v);
        lemma_index_same_keys(m, obj_insert(m, k, v), k, 0);
    }
}

proof fn lemma_get_insert_other(m: Seq<(Seq<char>, JsonV)>, k: Seq<char>, v: JsonV, k2: Seq<char>)
    requires
        k != k2,
    ensures
        obj_get(obj_insert(m, k, v), k2) == obj_get(m, k2),
{
    lemma_index_from_range(m, k, 0);
    lemma_index_from_range(m, k2, 0);
    if key_index(m, k) < 0 {
        lemma_index_push(m, (k, v), k2, 0);
    } else {
        lemma_insert_keys(m, k, v);
        lemma_index_same_keys(m, obj_insert(m, k, v), k2, 0);
    }
}

/// After inserting all of `h`, each key of `h` holds its last value there.
proof fn lemma_insert_all_get(m: Seq<(Seq<char>, JsonV)>, h: Seq<(Seq<char>, JsonV)>, k: Seq<char>)
    requires
        last_value(h, k) is Some,
    ensures
        obj_get(insert_all(m, h), k) == last_value(h, k),
    decreases h.len(),
{
    let n = insert_all(m, h.drop_last());
    if h.last().0 == k {
        lemma_get_insert_same(n, k, h.last().1);
    } else {
        lemma_insert_all_get(m, h.drop_last(), k);
        lemma_get_insert_other(n, h.last().0, h.last().1, k);
    }
}

/// Where every key of `h` is already present, inserting `h` changes values
/// in place and nothing else.
proof fn lemma_insert_all_present(m: Seq<(Seq<char>, JsonV)>, h: Seq<(Seq<char>, JsonV)>)
    requires
        forall|k: Seq<char>| #[trigger] last_value(h, k) is Some ==> key_index(m, k) >= 0,
    ensures
        insert_all(m, h) == overlay_in_place(m, h),
    decreases h.len(),
{
    if h.len() == 0 {
        assert(overlay_in_place(m, h) =~= m);
    } else {
        let hp = h.drop_last();
        let (k, v) = h.last();
        assert forall|k2: Seq<char>| #[trigger] last_value(hp, k2) is Some implies key_index(m, k2) >= 0 by {
            if k2 != k {
                assert(last_value(h, k2) == last_value(hp, k2));
            } else {
                assert(last_value(h, k2) is Some);
            }
        }
        lemma_insert_all_present(m, hp);
        let n = overlay_in_place(m, hp);
        assert(last_value(h, k) is Some);
        lemma_index_same_keys(m, n, k, 0);
        lemma_index_from_range(m, k, 0);
        let i0 = key_index(m, k);
        let r = obj_insert(n, k, v);
        assert(r =~= overlay_in_place(m, h)) by {
            assert forall|i: int| 0 <= i < m.len() implies #[trigger] r[i] == overlay_in_place(m, h)[i] by {
                if m[i].0 != k {
                    assert(last_value(h, m[i].0) == last_value(hp, m[i].0));
                }
            }
        }
    }
}

/// Extending twice by the same mapping gives what extending once gives: the
/// second pass finds every key in place and holding its final value.
pub proof fn lemma_extend_idempotent(base: JsonV, h: Seq<(Seq<char>, JsonV)>)
    ensures
        merge_spec(merge_spec(base, h), h) == merge_spec(base, h),
{
    let m0 = insert_all(merge_base(base), h);
    assert forall|k: Seq<char>| #[trigger] last_value(h, k) is Some implies key_index(m0, k) >= 0 && obj_get(m0, k) == last_value(h, k) by {
        lemma_insert_all_get(merge_base(base), h, k);
    }
    lemma_insert_all_present(m0, h);
    assert(overlay_in_place(m0, h) =~= m0) by {
        assert forall|i: int| 0 <= i < m0.len() implies #[trigger] overlay_in_place(m0, h)[i] == m0[i] by {
            let k = m0[i].0;
            if key_index(m0, k) == i && last_value(h, k) is Some {
                assert(obj_get(m0, k) == last_value(h, k));
            }
        }
    }
}

/// A key that the mapping does not write keeps the value it had before
/// extension (under `this` for a value that was not an object).
proof fn lemma_insert_all_other(m: Seq<(Seq<char>, JsonV)>, h: Seq<(Seq<char>, JsonV)>, k: Seq<char>)
    requires
        last_value(h, k) is None,
    ensures
        obj_get(insert_all(m, h), k) == obj_get(m, k),
    decreases h.len(),
{
    if h.len() > 0 {
        lemma_insert_all_other(m, h.drop_last(), k);
        lemma_get_insert_other(insert_all(m, h.drop_last()), h.last().0, h.last().1, k);
    }
}

/// Extension leaves every key the mapping does not write as it was.
pub proof fn lemma_extend_keeps_others(base: JsonV, h: Seq<(Seq<char>, JsonV)>, k: Seq<char>)
    requires
        last_value(h, k) is None,
    ensures
        obj_get(merge_spec(base, h)->Object_0, k) == obj_get(merge_base(base), k),
{
    lemma_insert_all_other(merge_base(base), h, k);
}

/// Extension keeps the value of a key that the mapping writes last.
pub proof fn lemma_extend_later_wins(base: JsonV, h: Seq<(Seq<char>, JsonV)>, k: Seq<char>)
    requires
        last_value(h, k) is Some,
    ensures
        obj_get(merge_spec(base, h)->Object_0, k) == last_value(h, k),
{
    lemma_insert_all_get(merge_base(base), h, k);
}

// ---------------------------------------------------------------------------
// Execution
/// The array index a name denotes, when it reads as an unsigned integer
/// below `len`.
fn index_value(name: &str, len: usize) -> (r: Option<usize>)
    ensures
        r is Some <==> is_index(name@) && digits_value(index_text(name@)) < len,
        r is Some ==> r->0 == digits_value(index_text(name@)),
{
    let cs = chars_of(name);
    if cs.len() > 0 && cs[0] == '+' {
        let rest = string_of(&cs, 1, cs.len());
        assert(rest@ =~= index_text(name@));
        digits_index(rest.as_str(), len)
    } else {
        digits_index(name, len)
    }
}

/// The value of an all-digit name, when it is below `len`.
fn digits_index(name: &str, len: usize) -> (r: Option<usize>)
    ensures
        r is Some <==> all_digits(name@) && digits_value(name@) < len,
        r is Some ==> r->0 == digits_value(name@),
{
    let cs = chars_of(name);
    let n = cs.len();
    if n == 0 {
        return None;
    }
    let mut acc: u128 = 0;
    let mut i: usize = 0;
    while i < n
        invariant
            n == name@.len(),
            cs@ == name@,
            i <= n,
            forall|j: int| 0 <= j < i ==> is_digit(#[trigger] name@[j]),
            acc as int == if digits_value(name@.subrange(0, i as int)) < len {
                digits_value(name@.subrange(0, i as int)) as int
            } else {
                len as int
            },
        decreases n - i,
    {
        let c = cs[i];
        if !('0' <= c && c <= '9') {
            return None;
        }
        let d = (c as u32 - '0' as u32) as u128;
        let ghost pre = name@.subrange(0, i as int);
        let ghost nxt = name@.subrange(0, i + 1);
        assert(nxt.drop_last() =~= pre);
        assert(digits_value(nxt) == digits_value(pre) * 10 + d);
        let t = acc * 10 + d;
        acc = if t < len as u128 {
            t
        } else {
            len as u128
        };
        proof {
            if digits_value(pre) >= len {
                assert(digits_value(pre) * 10 + d >= len) by (nonlinear_arith)
                    requires
                        digits_value(pre) >= len,
                        d >= 0,
                ;
            }
        }
        i += 1;
    }
    assert(name@.subrange(0, n as int) =~= name@);
    if acc < len as u128 {
        Some(acc as usize)
    } else {
        None
    }
}

/// Applies `segs` to the name stack in order.
fn push_segments(stack: &mut Vec<String>, segs: &Vec<PathSegment>)
    ensures
        roots_view(final(stack)@) == apply_segs(roots_view(old(stack)@), segs_view(segs@)),
{
    let mut i: usize = 0;
    while i < segs.len()
        invariant
            i <= segs.len(),
            roots_view(stack@) == apply_segs(
                roots_view(old(stack)@),
                segs_view(segs@).subrange(0, i as int),
            ),
        decreases segs.len() - i,
    {
        let ghost before = stack@;
        let ghost sv = segs_view(segs@);
        assert(sv.subrange(0, i + 1).drop_last() =~= sv.subrange(0, i as int));
        match &segs[i] {
            PathSegment::Up => {
                if stack.len() > 0 {
                    stack.pop();
                    assert(roots_view(stack@) =~= roots_view(before).drop_last());
                }
            },
            PathSegment::Id(n) => {
                stack.push(n.clone());
                assert(roots_view(stack@) =~= roots_view(before).push(n@));
            },
            PathSegment::RawId(n) => {
                stack.push(n.clone());
                assert(roots_view(stack@) =~= roots_view(before).push(n@));
            },
            PathSegment::NumId(n) => {
                stack.push(n.clone());
                assert(roots_view(stack@) =~= roots_view(before).push(n@));
            },
        }
        i += 1;
    }
    assert(segs_view(segs@).subrange(0, segs.len() as int) =~= segs_view(segs@));
}

fn count_leading_ups(segs: &Vec<PathSegment>) -> (r: usize)
    ensures
        r == leading_ups(segs_view(segs@)),
{
    let ghost sv = segs_view(segs@);
    assert(sv.subrange(0, sv.len() as int) =~= sv);
    let mut i: usize = 0;
    while i < segs.len()
        invariant
            i <= segs.len(),
            sv == segs_view(segs@),
            leading_ups(sv) == i + leading_ups(sv.subrange(i as int, sv.len() as int)),
        decreases segs.len() - i,
    {
        match &segs[i] {
            PathSegment::Up => {},
            _ => {
                return i;
            },
        }
        assert(sv.subrange(i as int, sv.len() as int).drop_first() =~= sv.subrange(
            i + 1,
            sv.len() as int,
        ));
        i += 1;
    }
    i
}

impl View for Context {
    type V = JsonV;

    closed spec fn view(&self) -> JsonV {
        self.data@
    }
}

impl Context {
    /// A context holding null.
    pub fn null() -> (r: Context)
        ensures
            r@ == JsonV::Null,
    {
        Context { data: Json::Null }
    }

    /// A context holding a copy of `e`.
    pub fn wraps(e: &Json) -> (r: Context)
        ensures
            r@ == e@,
    {
        Context { data: e.deep_clone() }
    }

    /// A new context whose value is this one's merged with `hash`: an object
    /// takes the new keys over its own (new values win); any other value is
    /// first put under the key `this`. The receiver is left as it was.
    pub fn extend(&self, hash: &Object) -> (r: Context)
        ensures
            r@ == merge_spec(self@, hash@),
    {
        let mut base = match &self.data {
            Json::Object(m) => m.deep_clone(),
            _ => {
                let mut m = Object::new();
                proof {
                    reveal_strlit("this");
                }
                let key = String::from_str("this");
                assert(key@ == this_chars());
                m.insert(key, self.data.deep_clone());
                assert(m@ =~= merge_base(self@));
                m
            },
        };
        assert(base@ == merge_base(self@));
        let mut i: usize = 0;
        while i < hash.len()
            invariant
                i <= hash@.len(),
                base@ == insert_all(merge_base(self@), hash@.subrange(0, i as int)),
            decreases hash@.len() - i,
        {
            let k = hash.key_at(i).clone();
            let v = hash.value_at(i).deep_clone();
            base.insert(k, v);
            assert(hash@.subrange(0, i + 1).drop_last() =~= hash@.subrange(0, i as int));
            i += 1;
        }
        assert(hash@.subrange(0, hash@.len() as int) =~= hash@);
        Context { data: Json::Object(base) }
    }

    /// The value at `relative_path`, read from the root along `base_path`.
    /// A leading `../` run of length `d` starts from `path_context[d - 1]`
    /// instead of the base path when that entry exists. Never fails: a
    /// missing key, a wrong shape or a path that does not parse gives null.
    pub fn navigate(&self, base_path: &str, path_context: &VecDeque<String>, relative_path: &str) -> (r: &Json)
        ensures
            r@ == nav_spec(self@, base_path@, roots_view(path_context@), relative_path@),
    {
        let rel = match parse_path(relative_path) {
            Some(r) => r,
            None => {
                return &Json::Null;
            },
        };
        let d = count_leading_ups(&rel);
        let ghost roots = roots_view(path_context@);
        let start: &str = if d >= 1 && d - 1 < path_context.len() {
            path_context[d - 1].as_str()
        } else {
            base_path
        };
        assert(start@ == start_path(base_path@, roots, segs_view(rel@)));
        let mut stack: Vec<String> = Vec::new();
        assert(roots_view(stack@) =~= Seq::<Seq<char>>::empty());
        match parse_path(start) {
            Some(b) => {
                push_segments(&mut stack, &b);
            },
            None => {},
        }
        assert(roots_view(stack@) =~= apply_segs(
            Seq::empty(),
            base_segs(start_path(base_path@, roots, segs_view(rel@))),
        ));
        push_segments(&mut stack, &rel);
        let ghost names = roots_view(stack@);
        assert(nav_names(base_path@, roots, relative_path@) == Some(names));
        let mut data: &Json = &self.data;
        assert(names.subrange(0, names.len() as int) =~= names);
        let mut i: usize = 0;
        while i < stack.len()
            invariant
                i <= stack.len(),
                names == roots_view(stack@),
                walk(self@, names) == walk(data@, names.subrange(i as int, names.len() as int)),
            decreases stack.len() - i,
        {
            let p = stack[i].as_str();
            let ghost rest = names.subrange(i as int, names.len() as int);
            assert(rest.drop_first() =~= names.subrange(i + 1, names.len() as int));
            assert(rest[0] == p@);
            proof {
                reveal_strlit("this");
            }
            let ghost prev = data@;
            assert("this"@ =~= this_chars());
            let is_this = str_eq(p, "this");
            assert(is_this == (p@ == this_chars()));
            let skip = is_this && match data {
                Json::Object(m) => m.get("this").is_none(),
                _ => true,
            };
            if !skip {
                data = match data {
                    Json::Array(l) => match index_value(p, l.len()) {
                        Some(idx) => {
                            assert(data@->Array_0[idx as int] == l@[idx as int]@);
                            &l[idx]
                        },
                        None => &Json::Null,
                    },
                    Json::Object(m) => match m.get(p) {
                        Some(v) => v,
                        None => &Json::Null,
                    },
                    _ => &Json::Null,
                };
            }
            assert(data@ == nav_step(prev, p@));
            i += 1;
        }
        assert(names.subrange(stack.len() as int, names.len() as int) =~= Seq::<Seq<char>>::empty());
        data
    }

    /// The value the context holds.
    pub fn data(&self) -> (r: &Json)
        ensures
            r@ == self@,
    {
        &self.data
    }

    /// The value the context holds, for change in place.
    pub fn data_mut(&mut self) -> (r: &mut Json)
        ensures
            r@ == old(self)@,
            final(self)@ == final(r)@,
    {
        &mut self.data
    }
}

} // verus!
