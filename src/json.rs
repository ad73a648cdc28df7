use vstd::prelude::*;
use crate::path::chars_of;

verus! {

/// The mathematical model of a value: what a `Json` holds, with strings as
/// character sequences and objects as ordered lists of entries.
pub enum JsonV {
    Null,
    Bool(bool),
    Number(int),
    Str(Seq<char>),
    Array(Seq<JsonV>),
    Object(Seq<(Seq<char>, JsonV)>),
}

/// A value the templates render over.
#[derive(Debug)]
pub enum Json {
    Null,
    Bool(bool),
    Number(i64),
    String(String),
    Array(Vec<Json>),
    Object(Object),
}

/// A mapping from keys to values that keeps the order in which keys were
/// first inserted. Inserting an existing key replaces its value in place.
#[derive(Debug)]
pub struct Object {
    pub entries: Vec<(String, Json)>,
}

impl Json {
    pub open spec fn view_json(&self) -> JsonV
        decreases self,
    {
        match self {
            Json::Null => JsonV::Null,
            Json::Bool(b) => JsonV::Bool(*b),
            Json::Number(n) => JsonV::Number(*n as int),
            Json::String(s) => JsonV::Str(s@),
            Json::Array(v) => JsonV::Array(
                Seq::new(
                    v.len() as nat,
                    |i: int|
                        if 0 <= i < v.len() {
                            v@[i].view_json()
                        } else {
                            JsonV::Null
                        },
                ),
            ),
            Json::Object(o) => JsonV::Object(
                Seq::new(
                    o.entries.len() as nat,
                    |i: int|
                        if 0 <= i < o.entries.len() {
                            (o.entries@[i].0@, o.entries@[i].1.view_json())
                        } else {
                            (Seq::empty(), JsonV::Null)
                        },
                ),
            ),
        }
    }
}

impl View for Json {
    type V = JsonV;

    open spec fn view(&self) -> JsonV {
        self.view_json()
    }
}

impl View for Object {
    type V = Seq<(Seq<char>, JsonV)>;

    open spec fn view(&self) -> Seq<(Seq<char>, JsonV)> {
        Json::Object(*self).view_json()->Object_0
    }
}

// ---------------------------------------------------------------------------
// Lookup and insertion over the model
/// Index of the first entry at or after `i` whose key is `k`, or -1.
pub open spec fn index_from(m: Seq<(Seq<char>, JsonV)>, k: Seq<char>, i: int) -> int
    decreases m.len() - i,
{
    if i < 0 || i >= m.len() {
        -1
    } else if m[i].0 == k {
        i
    } else {
        index_from(m, k, i + 1)
    }
}

/// Index of the first entry whose key is `k`, or -1 when there is none.
pub open spec fn key_index(m: Seq<(Seq<char>, JsonV)>, k: Seq<char>) -> int {
    index_from(m, k, 0)
}

/// No key occurs twice.
pub open spec fn keys_unique(m: Seq<(Seq<char>, JsonV)>) -> bool {
    forall|i: int, j: int| 0 <= i < j < m.len() ==> #[trigger] m[i].0 != #[trigger] m[j].0
}

/// The value stored under `k`, if any.
pub open spec fn obj_get(m: Seq<(Seq<char>, JsonV)>, k: Seq<char>) -> Option<JsonV> {
    let i = key_index(m, k);
    if i < 0 {
        None
    } else {
        Some(m[i].1)
    }
}

/// The entries after storing `v` under `k`: the value of an existing key is
/// replaced in place, a new key goes at the end.
pub open spec fn obj_insert(m: Seq<(Seq<char>, JsonV)>, k: Seq<char>, v: JsonV) -> Seq<
    (Seq<char>, JsonV),
> {
    let i = key_index(m, k);
    if i < 0 {
        m.push((k, v))
    } else {
        m.update(i, (m[i].0, v))
    }
}

pub proof fn lemma_index_from_range(m: Seq<(Seq<char>, JsonV)>, k: Seq<char>, i: int)
    requires
        0 <= i,
    ensures
        index_from(m, k, i) == -1 || (i <= index_from(m, k, i) < m.len() && m[index_from(
            m,
            k,
            i,
        )].0 == k),
        index_from(m, k, i) == -1 ==> forall|j: int| i <= j < m.len() ==> m[j].0 != k,
    decreases m.len() - i,
{
    if i < m.len() && m[i].0 != k {
        lemma_index_from_range(m, k, i + 1);
    }
}

// ---------------------------------------------------------------------------
// Rendering as text
pub open spec fn digit_char(d: nat) -> char {
    if d == 0 {
        '0'
    } else if d == 1 {
        '1'
    } else if d == 2 {
        '2'
    } else if d == 3 {
        '3'
    } else if d == 4 {
        '4'
    } else if d == 5 {
        '5'
    } else if d == 6 {
        '6'
    } else if d == 7 {
        '7'
    } else if d == 8 {
        '8'
    } else {
        '9'
    }
}

/// Decimal digits of a natural number, most significant first.
pub open spec fn nat_text(n: nat) -> Seq<char>
    decreases n,
{
    if n < 10 {
        seq![digit_char(n)]
    } else {
        nat_text(n / 10).push(digit_char(n % 10))
    }
}

/// Canonical decimal text of an integer.
pub open spec fn int_text(n: int) -> Seq<char> {
    if n < 0 {
        seq!['-'] + nat_text((-n) as nat)
    } else {
        nat_text(n as nat)
    }
}

pub open spec fn array_len(v: JsonV) -> nat {
    match v {
        JsonV::Array(a) => a.len(),
        _ => 0,
    }
}

/// How a value reads as text: strings as they are, numbers and booleans in
/// canonical form, null as nothing, arrays as `[a, b, ]`, objects as `[object]`.
pub open spec fn render_spec(v: JsonV) -> Seq<char>
    decreases v, array_len(v) + 1,
{
    match v {
        JsonV::Null => Seq::empty(),
        JsonV::Bool(b) => if b {
            seq!['t', 'r', 'u', 'e']
        } else {
            seq!['f', 'a', 'l', 's', 'e']
        },
        JsonV::Number(n) => int_text(n),
        JsonV::Str(s) => s,
        JsonV::Array(a) => seq!['['] + render_items(v, a.len() as int) + seq![']'],
        JsonV::Object(_) => seq!['[', 'o', 'b', 'j', 'e', 'c', 't', ']'],
    }
}

/// The text of the first `n` items of an array, each followed by `", "`.
pub open spec fn render_items(v: JsonV, n: int) -> Seq<char>
    decreases v, n,
{
    match v {
        JsonV::Array(a) => if n <= 0 || n > a.len() {
            Seq::empty()
        } else {
            render_items(v, n - 1) + render_spec(a[n - 1]) + seq![',', ' ']
        },
        _ => Seq::empty(),
    }
}

/// Whether a value counts as true in a condition.
pub open spec fn truthy_spec(v: JsonV) -> bool {
    match v {
        JsonV::Null => false,
        JsonV::Bool(b) => b,
        JsonV::Number(n) => n != 0,
        JsonV::Str(s) => s.len() > 0,
        JsonV::Array(a) => a.len() > 0,
        JsonV::Object(m) => m.len() > 0,
    }
}

/// Relies on `String::push`: it appends the one character to the string.
pub assume_specification[ std::string::String::push ](s: &mut std::string::String, ch: char)
    ensures
        final(s)@ == old(s)@.push(ch),
;

/// Appends every character of `t` to `s`.
pub fn push_all(s: &mut String, t: &str)
    ensures
        final(s)@ == old(s)@ + t@,
{
    let cs = chars_of(t);
    let mut i: usize = 0;
    while i < cs.len()
        invariant
            cs@ == t@,
            i <= cs.len(),
            s@ == old(s)@ + t@.subrange(0, i as int),
        decreases cs.len() - i,
    {
        s.push(cs[i]);
        i += 1;
        assert(s@ =~= old(s)@ + t@.subrange(0, i as int));
    }
    assert(t@.subrange(0, cs.len() as int) =~= t@);
}

fn digit_of(d: u64) -> (c: char)
    requires
        d < 10,
    ensures
        c == digit_char(d as nat),
{
    if d == 0 {
        '0'
    } else if d == 1 {
        '1'
    } else if d == 2 {
        '2'
    } else if d == 3 {
        '3'
    } else if d == 4 {
        '4'
    } else if d == 5 {
        '5'
    } else if d == 6 {
        '6'
    } else if d == 7 {
        '7'
    } else if d == 8 {
        '8'
    } else {
        '9'
    }
}

/// Appends the decimal digits of `n` to `s`.
pub fn push_nat(s: &mut String, n: u64)
    ensures
        final(s)@ == old(s)@ + nat_text(n as nat),
{
    let mut digits: Vec<char> = Vec::new();
    let mut m: u64 = n;
    while m >= 10
        invariant
            nat_text(n as nat) == nat_text(m as nat) + digits@,
        decreases m,
    {
        let d = digit_of(m % 10);
        assert(nat_text(m as nat) == nat_text((m / 10) as nat).push(d));
        digits.insert(0, d);
        assert(nat_text(n as nat) =~= nat_text((m / 10) as nat) + digits@);
        m = m / 10;
    }
    let first = digit_of(m);
    assert(nat_text(m as nat) == seq![first]);
    s.push(first);
    let mut i: usize = 0;
    while i < digits.len()
        invariant
            i <= digits.len(),
            s@ == old(s)@ + seq![first] + digits@.subrange(0, i as int),
        decreases digits.len() - i,
    {
        s.push(digits[i]);
        i += 1;
        assert(s@ =~= old(s)@ + seq![first] + digits@.subrange(0, i as int));
    }
    assert(digits@.subrange(0, digits.len() as int) =~= digits@);
    assert(s@ =~= old(s)@ + nat_text(n as nat));
}

/// Appends the canonical decimal text of `n` to `s`.
fn push_int(s: &mut String, n: i64)
    ensures
        final(s)@ == old(s)@ + int_text(n as int),
{
    if n < 0 {
        s.push('-');
        let mag: u64 = if n == i64::MIN {
            9223372036854775808u64
        } else {
            (-n) as u64
        };
        push_nat(s, mag);
        assert(s@ =~= old(s)@ + int_text(n as int));
    } else {
        push_nat(s, n as u64);
    }
}

impl Json {
    /// Renders the value as text, as expressions print it.
    pub fn render(&self) -> (r: String)
        ensures
            r@ == render_spec(self@),
    {
        let mut out = String::new();
        self.render_into(&mut out);
        assert(out@ =~= render_spec(self@));
        out
    }

    /// Appends the text of the value to `out`.
    pub fn render_into(&self, out: &mut String)
        ensures
            final(out)@ == old(out)@ + render_spec(self@),
        decreases self,
    {
        match self {
            Json::Null => {
                assert(out@ =~= old(out)@ + render_spec(self@));
            },
            Json::Bool(b) => {
                if *b {
                    out.push('t');
                    out.push('r');
                    out.push('u');
                    out.push('e');
                } else {
                    out.push('f');
                    out.push('a');
                    out.push('l');
                    out.push('s');
                    out.push('e');
                }
                assert(out@ =~= old(out)@ + render_spec(self@));
            },
            Json::Number(n) => {
                push_int(out, *n);
            },
            Json::String(s) => {
                push_all(out, s.as_str());
            },
            Json::Array(v) => {
                out.push('[');
                let ghost start = out@;
                let mut i: usize = 0;
                while i < v.len()
                    invariant
                        *self == Json::Array(*v),
                        decreases_to!(*self => *v),
                        i <= v.len(),
                        out@ == start + render_items(self@, i as int),
                        start == old(out)@.push('['),
                    decreases v.len() - i,
                {
                    proof {
                        broadcast use vstd::std_specs::vec::axiom_vec_index_decreases;

                        assert(decreases_to!(*v => v[i as int]));
                    }
                    v[i].render_into(out);
                    out.push(',');
                    out.push(' ');
                    i += 1;
                    assert(self@->Array_0[i - 1] == v@[i - 1]@);
                    assert(out@ =~= start + render_items(self@, i as int));
                }
                out.push(']');
                assert(out@ =~= old(out)@ + render_spec(self@));
            },
            Json::Object(_) => {
                push_all(out, "[object]");
                proof {
                    reveal_strlit("[object]");
                }
                assert(out@ =~= old(out)@ + render_spec(self@));
            },
        }
    }

    /// Whether the value counts as true: a true boolean, a nonzero number,
    /// or a non-empty string, array or object.
    pub fn is_truthy(&self) -> (r: bool)
        ensures
            r == truthy_spec(self@),
    {
        match self {
            Json::Null => false,
            Json::Bool(b) => *b,
            Json::Number(n) => *n != 0,
            Json::String(s) => s.unicode_len() > 0,
            Json::Array(v) => v.len() > 0,
            Json::Object(o) => o.entries.len() > 0,
        }
    }

    pub fn is_null(&self) -> (r: bool)
        ensures
            r == (self@ is Null),
    {
        match self {
            Json::Null => true,
            _ => false,
        }
    }

    /// A copy of the value, equal to it in every part.
    pub fn deep_clone(&self) -> (r: Json)
        ensures
            r@ == self@,
        decreases self,
    {
        match self {
            Json::Null => Json::Null,
            Json::Bool(b) => Json::Bool(*b),
            Json::Number(n) => Json::Number(*n),
            Json::String(s) => Json::String(s.clone()),
            Json::Array(v) => {
                let mut out: Vec<Json> = Vec::new();
                let mut i: usize = 0;
                while i < v.len()
                    invariant
                        *self == Json::Array(*v),
                        decreases_to!(*self => *v),
                        i <= v.len(),
                        out.len() == i,
                        forall|j: int| 0 <= j < i ==> (#[trigger] out@[j])@ == v@[j]@,
                    decreases v.len() - i,
                {
                    proof {
                        broadcast use vstd::std_specs::vec::axiom_vec_index_decreases;

                        assert(decreases_to!(*v => v[i as int]));
                    }
                    let c = v[i].deep_clone();
                    out.push(c);
                    i += 1;
                }
                let r = Json::Array(out);
                assert(r@->Array_0 =~= self@->Array_0);
                r
            },
            Json::Object(o) => {
                let mut out: Vec<(String, Json)> = Vec::new();
                let mut i: usize = 0;
                while i < o.entries.len()
                    invariant
                        *self == Json::Object(*o),
                        decreases_to!(*self => o.entries),
                        i <= o.entries.len(),
                        out.len() == i,
                        forall|j: int|
                            0 <= j < i ==> (#[trigger] out@[j]).0@ == o.entries@[j].0@ && out@[j].1@
                                == o.entries@[j].1@,
                    decreases o.entries.len() - i,
                {
                    proof {
                        broadcast use vstd::std_specs::vec::axiom_vec_index_decreases;

                        assert(decreases_to!(o.entries => o.entries[i as int]));
                    }
                    let k = o.entries[i].0.clone();
                    let c = o.entries[i].1.deep_clone();
                    out.push((k, c));
                    i += 1;
                }
                let r = Json::Object(Object { entries: out });
                assert(r@->Object_0 =~= self@->Object_0);
                r
            },
        }
    }

    /// The string held, when the value is a string.
    pub fn as_str(&self) -> (r: Option<&str>)
        ensures
            r is Some <==> self@ is Str,
            r is Some ==> r->0@ == self@->Str_0,
    {
        match self {
            Json::String(s) => Some(s.as_str()),
            _ => None,
        }
    }
}

impl Clone for Json {
    fn clone(&self) -> Self {
        self.deep_clone()
    }
}

impl Clone for Object {
    fn clone(&self) -> Self {
        self.deep_clone()
    }
}

/// Renders a value as text.
pub trait JsonRender {
    fn render(&self) -> String;
}

/// Tells whether a value counts as true.
pub trait JsonTruthy {
    fn is_truthy(&self) -> bool;
}

impl JsonRender for Json {
    fn render(&self) -> String {
        Json::render(self)
    }
}

impl JsonTruthy for Json {
    fn is_truthy(&self) -> bool {
        Json::is_truthy(self)
    }
}

/// The string held by `src`, when it is a string.
pub fn as_string(src: &Json) -> (r: Option<&str>)
    ensures
        r is Some <==> src@ is Str,
        r is Some ==> r->0@ == src@->Str_0,
{
    src.as_str()
}

/// Whether two character strings are equal.
pub fn str_eq(a: &str, b: &str) -> (r: bool)
    ensures
        r == (a@ == b@),
{
    let ca = chars_of(a);
    let cb = chars_of(b);
    if ca.len() != cb.len() {
        return false;
    }
    let mut i: usize = 0;
    while i < ca.len()
        invariant
            ca@ == a@,
            cb@ == b@,
            ca.len() == cb.len(),
            i <= ca.len(),
            forall|j: int| 0 <= j < i ==> ca@[j] == cb@[j],
        decreases ca.len() - i,
    {
        if ca[i] != cb[i] {
            return false;
        }
        i += 1;
    }
    assert(a@ =~= b@);
    true
}

impl Object {
    pub fn new() -> (r: Object)
        ensures
            r@ == Seq::<(Seq<char>, JsonV)>::empty(),
            keys_unique(r@),
    {
        let r = Object { entries: Vec::new() };
        assert(r@ =~= Seq::<(Seq<char>, JsonV)>::empty());
        r
    }

    pub fn len(&self) -> (r: usize)
        ensures
            r == self@.len(),
    {
        self.entries.len()
    }

    pub fn key_at(&self, i: usize) -> (r: &String)
        requires
            i < self@.len(),
        ensures
            r@ == self@[i as int].0,
    {
        &self.entries[i].0
    }

    pub fn value_at(&self, i: usize) -> (r: &Json)
        requires
            i < self@.len(),
        ensures
            r@ == self@[i as int].1,
    {
        &self.entries[i].1
    }

    /// Position of the first entry under `key`.
    pub fn find(&self, key: &str) -> (r: Option<usize>)
        ensures
            r is None <==> key_index(self@, key@) < 0,
            r is Some ==> r->0 == key_index(self@, key@) && r->0 < self@.len(),
    {
        proof {
            lemma_index_from_range(self@, key@, 0);
        }
        let mut i: usize = 0;
        while i < self.entries.len()
            invariant
                i <= self@.len(),
                self@.len() == self.entries.len(),
                key_index(self@, key@) == index_from(self@, key@, i as int),
            decreases self.entries.len() - i,
        {
            assert(self@[i as int].0 == self.entries@[i as int].0@);
            if str_eq(self.entries[i].0.as_str(), key) {
                return Some(i);
            }
            i += 1;
        }
        None
    }

    /// The value stored under `key`.
    pub fn get(&self, key: &str) -> (r: Option<&Json>)
        ensures
            r is Some <==> obj_get(self@, key@) is Some,
            r is Some ==> r->0@ == obj_get(self@, key@)->0,
    {
        match self.find(key) {
            Some(i) => Some(&self.entries[i].1),
            None => None,
        }
    }

    /// Stores `value` under `key`: replaces the value of an existing key in
    /// place, or adds the key at the end.
    pub fn insert(&mut self, key: String, value: Json)
        ensures
            final(self)@ == obj_insert(old(self)@, key@, value@),
            keys_unique(old(self)@) ==> keys_unique(final(self)@),
    {
        proof {
            lemma_index_from_range(old(self)@, key@, 0);
        }
        match self.find(key.as_str()) {
            Some(i) => {
                let k = self.entries[i].0.clone();
                self.entries.set(i, (k, value));
                assert(self@ =~= obj_insert(old(self)@, key@, value@));
            },
            None => {
                self.entries.push((key, value));
                assert(self@ =~= obj_insert(old(self)@, key@, value@));
            },
        }
    }

    /// A copy of the mapping, equal to it in every part.
    pub fn deep_clone(&self) -> (r: Object)
        ensures
            r@ == self@,
    {
        let mut out: Vec<(String, Json)> = Vec::new();
        let mut i: usize = 0;
        while i < self.entries.len()
            invariant
                i <= self.entries.len(),
                out.len() == i,
                forall|j: int|
                    0 <= j < i ==> (#[trigger] out@[j]).0@ == self.entries@[j].0@ && out@[j].1@
                        == self.entries@[j].1@,
            decreases self.entries.len() - i,
        {
            let k = self.entries[i].0.clone();
            let c = self.entries[i].1.deep_clone();
            out.push((k, c));
            i += 1;
        }
        let r = Object { entries: out };
        assert(r@ =~= self@);
        r
    }
}

} // verus!
