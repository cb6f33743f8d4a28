//! A JSON value as the routing and guardrail logic reads it.
//!
//! Numbers keep the text they were written with; objects keep their entries
//! in order, as a list of key and value.
use vstd::prelude::*;

verus! {


/// A JSON document.
#[derive(Debug, PartialEq)]
pub enum Json {
    Null,
    Bool(bool),
    Number(String),
    Str(String),
    Array(Vec<Json>),
    Object(Vec<(String, Json)>),
}

/// The mathematical value of a [`Json`].
pub enum JsonV {
    Null,
    Bool(bool),
    Number(Seq<char>),
    Str(Seq<char>),
    Array(Seq<JsonV>),
    Object(Seq<(Seq<char>, JsonV)>),
}

impl Json {
    /// The value, with strings and numbers as character sequences.
    pub open spec fn model(&self) -> JsonV
        decreases self,
    {
        match self {
            Json::Null => JsonV::Null,
            Json::Bool(b) => JsonV::Bool(*b),
            Json::Number(n) => JsonV::Number(n@),
            Json::Str(s) => JsonV::Str(s@),
            Json::Array(v) => JsonV::Array(
                Seq::new(v.len() as nat, |i: int| if 0 <= i < v.len() { v[i].model() } else { JsonV::Null }),
            ),
            Json::Object(v) => JsonV::Object(
                Seq::new(v.len() as nat, |i: int| if 0 <= i < v.len() { (v[i].0@, v[i].1.model()) } else { (Seq::empty(), JsonV::Null) }),
            ),
        }
    }
}

impl Clone for Json {
    fn clone(&self) -> (r: Self)
        ensures
            r.model() == self.model(),
        decreases self,
    {
        match self {
            Json::Null => Json::Null,
            Json::Bool(b) => Json::Bool(*b),
            Json::Number(n) => Json::Number(n.clone()),
            Json::Str(s) => Json::Str(s.clone()),
            Json::Array(v) => {
                let mut w: Vec<Json> = Vec::new();
                let mut i: usize = 0;
                while i < v.len()
                    invariant
                        i <= v.len(),
                        w.len() == i,
                        *self == Json::Array(*v),
                        forall|j: int| 0 <= j < i ==> (#[trigger] w[j]).model() == v[j].model(),
                    decreases v.len() - i,
                {
                    proof {
                        assert(*self == Json::Array(*v));
                        assert(decreases_to!(*v => v[i as int]));
                        assert(decreases_to!(*self => self->Array_0));
                        assert(decreases_to!(*self => v[i as int]));
                    }
                    let x = v[i].clone();
                    w.push(x);
                    i += 1;
                }
                let r = Json::Array(w);
                assert(r.model()->Array_0 =~= self.model()->Array_0);
                r
            },
            Json::Object(v) => {
                let mut w: Vec<(String, Json)> = Vec::new();
                let mut i: usize = 0;
                while i < v.len()
                    invariant
                        i <= v.len(),
                        w.len() == i,
                        *self == Json::Object(*v),
                        forall|j: int| 0 <= j < i ==> (#[trigger] w[j]).1.model() == v[j].1.model() && w[j].0@ == v[j].0@,
                    decreases v.len() - i,
                {
                    let k = v[i].0.clone();
                    proof {
                        assert(*self == Json::Object(*v));
                        assert(decreases_to!(*v => v[i as int]));
                        assert(decreases_to!(v[i as int] => v[i as int].1));
                        assert(decreases_to!(*self => self->Object_0));
                        assert(decreases_to!(*self => v[i as int].1));
                    }
                    let x = v[i].1.clone();
                    w.push((k, x));
                    i += 1;
                }
                let r = Json::Object(w);
                assert(r.model()->Object_0 =~= self.model()->Object_0);
                r
            },
        }
    }
}


/// The value of a list of object entries.
pub open spec fn entries_model(o: Seq<(String, Json)>) -> Seq<(Seq<char>, JsonV)> {
    Seq::new(o.len(), |i: int| (o[i].0@, o[i].1.model()))
}

/// `i` is the first position of key `k` in `o`.
pub open spec fn is_first(o: Seq<(Seq<char>, JsonV)>, k: Seq<char>, i: int) -> bool {
    &&& 0 <= i < o.len()
    &&& o[i].0 == k
    &&& forall|j: int| 0 <= j < i ==> o[j].0 != k
}

/// The value bound to `k` in an object: that of its first entry with key `k`.
pub open spec fn lookup(o: Seq<(Seq<char>, JsonV)>, k: Seq<char>) -> Option<JsonV> {
    if exists|i: int| is_first(o, k, i) {
        Some(o[choose|i: int| is_first(o, k, i)].1)
    } else {
        None
    }
}

/// The object `o` with `k` bound to `v`: its first entry with key `k` replaced,
/// or, where there is none, a new entry at the end.
pub open spec fn upsert(o: Seq<(Seq<char>, JsonV)>, k: Seq<char>, v: JsonV) -> Seq<(Seq<char>, JsonV)> {
    if exists|i: int| is_first(o, k, i) {
        o.update(choose|i: int| is_first(o, k, i), (k, v))
    } else {
        o.push((k, v))
    }
}

/// At most one position is the first of a key.
pub proof fn lemma_first_unique(o: Seq<(Seq<char>, JsonV)>, k: Seq<char>, i: int, j: int)
    requires
        is_first(o, k, i),
        is_first(o, k, j),
    ensures
        i == j,
{
}

/// A key that occurs in an object has a first position.
pub proof fn lemma_first_exists(o: Seq<(Seq<char>, JsonV)>, k: Seq<char>, j: int)
    requires
        0 <= j < o.len(),
        o[j].0 == k,
    ensures
        exists|i: int| is_first(o, k, i),
    decreases j,
{
    if forall|i: int| 0 <= i < j ==> o[i].0 != k {
        assert(is_first(o, k, j));
    } else {
        let i = choose|i: int| 0 <= i < j && o[i].0 == k;
        lemma_first_exists(o, k, i);
    }
}

/// What an object binds after [`upsert`]: `v` under `k`, and under every
/// other key what it bound before.
pub proof fn lemma_upsert_lookup(o: Seq<(Seq<char>, JsonV)>, k: Seq<char>, v: JsonV, k2: Seq<char>)
    ensures
        lookup(upsert(o, k, v), k) == Some(v),
        k2 != k ==> lookup(upsert(o, k, v), k2) == lookup(o, k2),
{
    let u = upsert(o, k, v);
    if exists|i: int| is_first(o, k, i) {
        let i = choose|i: int| is_first(o, k, i);
        assert(is_first(u, k, i));
        assert forall|m: int| is_first(u, k, m) implies m == i by {
            lemma_first_unique(u, k, i, m);
        }
    } else {
        let n = o.len() as int;
        assert forall|j: int| 0 <= j < n implies o[j].0 != k by {
            if o[j].0 == k {
                lemma_first_exists(o, k, j);
            }
        }
        assert(is_first(u, k, n));
        assert forall|m: int| is_first(u, k, m) implies m == n by {
            lemma_first_unique(u, k, n, m);
        }
    }
    if k2 != k {
        assert forall|m: int| is_first(u, k2, m) <==> is_first(o, k2, m) by {
            if is_first(u, k2, m) {
                assert(u[m] == o[m]);
                assert forall|j: int| 0 <= j < m implies o[j].0 != k2 by {
                    assert(u[j].0 == o[j].0);
                }
            }
            if is_first(o, k2, m) {
                assert(u[m] == o[m]);
            }
        }
        if exists|m: int| is_first(o, k2, m) {
            let m = choose|m: int| is_first(o, k2, m);
            let m2 = choose|m: int| is_first(u, k2, m);
            lemma_first_unique(u, k2, m, m2);
        }
    }
}

/// The position of the first entry of `o` with key `key`.
pub fn find_entry(o: &Vec<(String, Json)>, key: &String) -> (r: Option<usize>)
    ensures
        match r {
            Some(i) => is_first(entries_model(o@), key@, i as int),
            None => !exists|i: int| is_first(entries_model(o@), key@, i),
        },
{
    let ghost m = entries_model(o@);
    let mut i: usize = 0;
    while i < o.len()
        invariant
            i <= o.len(),
            m == entries_model(o@),
            forall|j: int| 0 <= j < i ==> m[j].0 != key@,
        decreases o.len() - i,
    {
        if o[i].0 == *key {
            return Some(i);
        }
        i += 1;
    }
    None
}

/// The value that `o` binds to `key`, if any.
pub fn get_entry<'a>(o: &'a Vec<(String, Json)>, key: &String) -> (r: Option<&'a Json>)
    ensures
        match r {
            Some(v) => lookup(entries_model(o@), key@) == Some(v.model()),
            None => lookup(entries_model(o@), key@) is None,
        },
{
    match find_entry(o, key) {
        Some(i) => {
            proof {
                let m = entries_model(o@);
                let c = choose|j: int| is_first(m, key@, j);
                lemma_first_unique(m, key@, i as int, c);
            }
            Some(&o[i].1)
        },
        None => None,
    }
}

/// Binds `key` to `value` in `o`, replacing the first entry with that key.
pub fn set_entry(o: &mut Vec<(String, Json)>, key: String, value: Json)
    ensures
        entries_model(final(o)@) == upsert(entries_model(old(o)@), key@, value.model()),
{
    let ghost m = entries_model(o@);
    let ghost kv = (key@, value.model());
    match find_entry(o, &key) {
        Some(i) => {
            proof {
                let c = choose|j: int| is_first(m, key@, j);
                lemma_first_unique(m, key@, i as int, c);
            }
            o.set(i, (key, value));
            assert(entries_model(o@) =~= m.update(i as int, kv));
        },
        None => {
            o.push((key, value));
            assert(entries_model(o@) =~= m.push(kv));
        },
    }
}

/// The value of member `k` of `j`, where `j` is an object that has one.
pub open spec fn member(j: JsonV, k: Seq<char>) -> Option<JsonV> {
    match j {
        JsonV::Object(o) => lookup(o, k),
        _ => None,
    }
}

impl Json {
    /// The value of member `key`, where this is an object that has one.
    pub fn get(&self, key: &str) -> (r: Option<&Json>)
        ensures
            match r {
                Some(v) => member(self.model(), key@) == Some(v.model()),
                None => member(self.model(), key@) is None,
            },
    {
        match self {
            Json::Object(o) => {
                assert(self.model()->Object_0 =~= entries_model(o@));
                get_entry(o, &String::from_str(key))
            },
            _ => None,
        }
    }
}


/// How far right of the first digit the decimal point of a number that
/// [`decimal_micro`] reads may stand: values below 10^12.
pub const MAX_INT_DIGITS: i64 = 12;

/// The most digits of an exponent that [`decimal_micro`] reads.
pub const MAX_EXP_DIGITS: usize = 4;

pub open spec fn is_digit(c: char) -> bool {
    '0' <= c && c <= '9'
}

pub open spec fn digit_value(c: char) -> nat {
    (c as u32 - '0' as u32) as nat
}

pub open spec fn all_digits(s: Seq<char>) -> bool {
    forall|i: int| 0 <= i < s.len() ==> is_digit(#[trigger] s[i])
}

/// The value of a string of decimal digits.
pub open spec fn digits_value(s: Seq<char>) -> nat
    decreases s.len(),
{
    if s.len() == 0 {
        0
    } else {
        digits_value(s.drop_last()) * 10 + digit_value(s.last())
    }
}

pub open spec fn pow10(n: nat) -> nat
    decreases n,
{
    if n == 0 {
        1
    } else {
        10 * pow10((n - 1) as nat)
    }
}

/// The position of the first `'.'` in `s`, or its length where there is none.
pub open spec fn first_dot(s: Seq<char>) -> int {
    if exists|i: int| 0 <= i < s.len() && s[i] == '.' && forall|j: int| 0 <= j < i ==> s[j] != '.' {
        choose|i: int| 0 <= i < s.len() && s[i] == '.' && forall|j: int| 0 <= j < i ==> s[j] != '.'
    } else {
        s.len() as int
    }
}

pub open spec fn is_exp_mark(c: char) -> bool {
    c == 'e' || c == 'E'
}

/// The position of the first `'e'` or `'E'` in `s`, or its length where
/// there is none.
pub open spec fn first_exp(s: Seq<char>) -> int {
    if exists|i: int| 0 <= i < s.len() && is_exp_mark(s[i]) && forall|j: int| 0 <= j < i ==> !is_exp_mark(s[j]) {
        choose|i: int| 0 <= i < s.len() && is_exp_mark(s[i]) && forall|j: int| 0 <= j < i ==> !is_exp_mark(s[j])
    } else {
        s.len() as int
    }
}

/// An exponent: an optional sign and one to four digits.
pub open spec fn exponent_of(t: Seq<char>) -> Option<int> {
    let neg = t.len() > 0 && t[0] == '-';
    let digits = if t.len() > 0 && (t[0] == '-' || t[0] == '+') { t.skip(1) } else { t };
    if 1 <= digits.len() <= MAX_EXP_DIGITS && all_digits(digits) {
        Some(if neg { -(digits_value(digits) as int) } else { digits_value(digits) as int })
    } else {
        None
    }
}

/// The first `k` digits of `c`, padded with zeros.
pub open spec fn padded(c: Seq<char>, k: nat) -> Seq<char> {
    Seq::new(k, |i: int| if i < c.len() { c[i] } else { '0' })
}

/// A non-negative JSON number, written as digits with an optional fraction
/// and an optional exponent (`"20"`, `"0.25"`, `"1e-5"`), in millionths
/// rounded down: the digits, with the decimal point moved by the exponent,
/// cut six places right of the point. Values of 10^12 and more are not read.
pub open spec fn decimal_micro(s: Seq<char>) -> Option<nat> {
    let q = first_exp(s);
    let m = s.take(q);
    let e = if q < s.len() { exponent_of(s.skip(q + 1)) } else { Some(0) };
    let p = first_dot(m);
    let int_part = m.take(p);
    let frac = if p < m.len() { m.skip(p + 1) } else { Seq::empty() };
    if 1 <= p && all_digits(int_part) && all_digits(frac) && (p < m.len() ==> frac.len() > 0) && e is Some
        && p + e->Some_0 <= MAX_INT_DIGITS {
        let k = p + e->Some_0 + 6;
        Some(if k <= 0 { 0 } else { digits_value(padded(int_part + frac, k as nat)) })
    } else {
        None
    }
}

proof fn lemma_digits_step(c: Seq<char>, n: int)
    requires
        0 <= n < c.len(),
    ensures
        digits_value(c.take(n + 1)) == digits_value(c.take(n)) * 10 + digit_value(c[n]),
{
    assert(c.take(n + 1).drop_last() =~= c.take(n));
}

proof fn lemma_scale(v: nat, p: nat, d: nat)
    requires
        v < p,
        d < 10,
    ensures
        v * 10 + d < p * 10,
{
    assert(v * 10 + d < p * 10) by (nonlinear_arith)
        requires v < p, d < 10;
}

fn is_digit_char(c: char) -> (r: bool)
    ensures
        r == is_digit(c),
{
    '0' <= c && c <= '9'
}

/// Reads the exponent `t[from..n]` as [`exponent_of`] does.
fn parse_exponent(t: &str, from: usize) -> (r: Option<i64>)
    requires
        from <= t@.len(),
    ensures
        match exponent_of(t@.skip(from as int)) {
            Some(e) => -9999 <= e <= 9999 && r == Some(e as i64),
            None => r is None,
        },
{
    let ghost x = t@.skip(from as int);
    let n = t.unicode_len();
    let mut start = from;
    let mut neg = false;
    if from < n {
        let c = t.get_char(from);
        if c == '-' || c == '+' {
            start = from + 1;
            neg = c == '-';
        }
    }
    let ghost digits = t@.skip(start as int);
    proof {
        if from < n {
            assert(x[0] == t@[from as int]);
        }
        if x.len() > 0 && (x[0] == '-' || x[0] == '+') {
            assert(digits =~= x.skip(1));
        } else {
            assert(digits =~= x);
        }
    }
    if n - start < 1 || n - start > MAX_EXP_DIGITS {
        return None;
    }
    let mut v: u64 = 0;
    let mut i: usize = start;
    while i < n
        invariant
            start <= i <= n,
            n == t@.len(),
            1 <= n - start <= MAX_EXP_DIGITS,
            digits == t@.skip(start as int),
            x == t@.skip(from as int),
            x.len() > 0 && (x[0] == '-' || x[0] == '+') ==> digits == x.skip(1),
            !(x.len() > 0 && (x[0] == '-' || x[0] == '+')) ==> digits == x,
            neg == (x.len() > 0 && x[0] == '-'),
            all_digits(digits.take(i - start)),
            v == digits_value(digits.take(i - start)),
            v < pow10((i - start) as nat),
        decreases n - i,
    {
        let c = t.get_char(i);
        assert(digits[i - start] == c);
        if !is_digit_char(c) {
            assert(!all_digits(digits));
            return None;
        }
        proof {
            lemma_digits_step(digits, (i - start) as int);
            lemma_scale(v as nat, pow10((i - start) as nat), digit_value(c));
            assert(pow10((i - start + 1) as nat) == 10 * pow10((i - start) as nat));
            lemma_pow10_bounds();
            lemma_pow10_mono((i - start + 1) as nat, 18);
            assert(digits.take(i - start + 1) =~= digits.take(i - start).push(c));
        }
        v = v * 10 + (c as u64 - '0' as u64);
        i += 1;
    }
    assert(digits.take(n - start) =~= digits);
    proof {
        lemma_pow10_mono((n - start) as nat, 4);
        reveal_with_fuel(pow10, 5);
    }
    if neg {
        Some(-(v as i64))
    } else {
        Some(v as i64)
    }
}

/// Reads a JSON number as [`decimal_micro`] does.
pub fn parse_micro(text: &String) -> (r: Option<u64>)
    ensures
        match decimal_micro(text@) {
            Some(v) => v <= u64::MAX && r == Some(v as u64),
            None => r is None,
        },
{
    let ghost s = text@;
    let t = text.as_str();
    let n = t.unicode_len();
    let mut q: usize = 0;
    while q < n && !(t.get_char(q) == 'e' || t.get_char(q) == 'E')
        invariant
            q <= n,
            n == s.len(),
            t@ == s,
            forall|j: int| 0 <= j < q ==> !is_exp_mark(s[j]),
        decreases n - q,
    {
        q += 1;
    }
    proof {
        if q < n {
            let c = choose|i: int| 0 <= i < s.len() && is_exp_mark(s[i]) && forall|j: int| 0 <= j < i ==> !is_exp_mark(s[j]);
            assert(c == q as int) by {
                if c < q as int {
                } else if c > q as int {
                    assert(is_exp_mark(s[q as int]));
                }
            }
        }
        assert(first_exp(s) == q as int);
    }
    let ghost m = s.take(q as int);
    let e: i64 = if q < n {
        match parse_exponent(t, q + 1) {
            Some(e) => e,
            None => {
                return None;
            },
        }
    } else {
        0
    };
    let ghost ex: Option<int> = if q < n { exponent_of(s.skip(q + 1)) } else { Some(0) };
    assert(ex == Some(e as int) && -9999 <= e <= 9999);
    let mut p: usize = 0;
    while p < q && t.get_char(p) != '.'
        invariant
            ex == Some(e as int),
            -9999 <= e <= 9999,
            ex == (if q < n { exponent_of(s.skip(q + 1)) } else { Some(0) }),
            first_exp(s) == q as int,
            text@ == s,
            p <= q <= n,
            n == s.len(),
            t@ == s,
            m == s.take(q as int),
            forall|j: int| 0 <= j < p ==> m[j] != '.',
        decreases q - p,
    {
        p += 1;
    }
    proof {
        if p < q {
            assert(m[p as int] == '.');
            let c = choose|i: int| 0 <= i < m.len() && m[i] == '.' && forall|j: int| 0 <= j < i ==> m[j] != '.';
            assert(c == p as int) by {
                if c < p as int {
                } else if c > p as int {
                }
            }
        }
        assert(first_dot(m) == p as int);
    }
    let ghost int_part = m.take(p as int);
    let ghost frac: Seq<char> = if p < q { m.skip(p + 1) } else { Seq::empty() };
    let ghost c = int_part + frac;
    if p == 0 || (p < q && p + 1 == q) || p > 20000 {
        proof {
            if p < q && p + 1 == q {
                assert(frac.len() == 0);
            }
        }
        return None;
    }
    let mut i: usize = 0;
    while i < q
        invariant
            i <= q <= n,
            n == s.len(),
            t@ == s,
            text@ == s,
            m == s.take(q as int),
            1 <= p <= 20000,
            p <= q,
            int_part == m.take(p as int),
            frac == (if p < q { m.skip(p + 1) } else { Seq::<char>::empty() }),
            c == int_part + frac,
            first_exp(s) == q as int,
            first_dot(m) == p as int,
            ex == Some(e as int),
            -9999 <= e <= 9999,
            ex == (if q < n { exponent_of(s.skip(q + 1)) } else { Some(0) }),
            forall|j: int| 0 <= j < i && j != p ==> is_digit(#[trigger] s[j]),
        decreases q - i,
    {
        if i != p && !is_digit_char(t.get_char(i)) {
            proof {
                if i < p {
                    assert(int_part[i as int] == s[i as int]);
                    assert(!all_digits(int_part));
                } else {
                    assert(frac[i - p - 1] == s[i as int]);
                    assert(!all_digits(frac));
                }
            }
            return None;
        }
        i += 1;
    }
    proof {
        assert forall|j: int| 0 <= j < int_part.len() implies is_digit(#[trigger] int_part[j]) by {
            assert(int_part[j] == s[j]);
        }
        assert forall|j: int| 0 <= j < frac.len() implies is_digit(#[trigger] frac[j]) by {
            assert(frac[j] == s[j + p + 1]);
        }
    }
    let pe: i64 = p as i64 + e;
    if pe > MAX_INT_DIGITS {
        return None;
    }
    let k: i64 = pe + 6;
    if k <= 0 {
        return Some(0);
    }
    let ghost kn = k as nat;
    let ghost pc = padded(c, kn);
    let flen: usize = if p < q { q - p - 1 } else { 0 };
    assert(frac.len() == flen);
    assert(decimal_micro(s) == Some(digits_value(pc)));
    let mut v: u64 = 0;
    let mut i: usize = 0;
    while (i as i64) < k
        invariant
            0 < k <= 18,
            kn == k,
            pc == padded(c, kn),
            c == int_part + frac,
            int_part.len() == p,
            frac.len() == flen,
            p <= q <= n,
            n == s.len(),
            t@ == s,
            int_part == s.take(p as int),
            flen == (if p < q { q - p - 1 } else { 0 }),
            p < q ==> frac == s.subrange(p + 1, q as int),
            decimal_micro(s) == Some(digits_value(pc)),
            all_digits(int_part),
            all_digits(frac),
            text@ == s,
            i <= k,
            v == digits_value(pc.take(i as int)),
            v < pow10(i as nat),
        decreases k - i,
    {
        let ch = if i < p {
            t.get_char(i)
        } else if i - p < flen {
            t.get_char(i + 1)
        } else {
            '0'
        };
        assert(is_digit(ch)) by {
            if i < p {
                assert(int_part[i as int] == ch);
            } else if i - p < flen {
                assert(frac[i - p] == ch);
            }
        }
        proof {
            assert(pc[i as int] == ch);
            lemma_digits_step(pc, i as int);
            lemma_scale(v as nat, pow10(i as nat), digit_value(ch));
            assert(pow10((i + 1) as nat) == 10 * pow10(i as nat));
            lemma_pow10_bounds();
            lemma_pow10_mono(i as nat + 1, 18);
        }
        v = v * 10 + (ch as u64 - '0' as u64);
        i += 1;
    }
    assert(pc.take(k as int) =~= pc);
    Some(v)
}

proof fn lemma_pow10_bounds()
    ensures
        pow10(12) == 1000000000000,
        pow10(18) == 1000000000000000000,
{
    reveal_with_fuel(pow10, 19);
}

proof fn lemma_pow10_mono(a: nat, b: nat)
    requires
        a <= b,
    ensures
        pow10(a) <= pow10(b),
    decreases b,
{
    if a < b {
        lemma_pow10_mono(a, (b - 1) as nat);
    }
}


/// A copy of an object's entries.
pub fn clone_entries(o: &Vec<(String, Json)>) -> (r: Vec<(String, Json)>)
    ensures
        entries_model(r@) == entries_model(o@),
{
    let mut w: Vec<(String, Json)> = Vec::new();
    let mut i: usize = 0;
    while i < o.len()
        invariant
            i <= o.len(),
            w.len() == i,
            forall|j: int| 0 <= j < i ==> (#[trigger] w[j]).1.model() == o[j].1.model() && w[j].0@ == o[j].0@,
        decreases o.len() - i,
    {
        w.push((o[i].0.clone(), o[i].1.clone()));
        i += 1;
    }
    assert(entries_model(w@) =~= entries_model(o@));
    w
}

/// Whether `s` reads `lit`.
pub fn is_text(s: &String, lit: &str) -> (r: bool)
    ensures
        r == (s@ == lit@),
{
    *s == String::from_str(lit)
}


#[verifier::external_type_specification]
#[verifier::external_body]
pub struct ExValue(serde_json::Value);

/// The compact JSON text that serde_json writes for a value, where it
/// writes one.
pub uninterp spec fn json_text_of(j: JsonV) -> Option<Seq<char>>;

/// The value that serde_json reads from a text, where it reads one.
pub uninterp spec fn json_of(s: Seq<char>) -> Option<JsonV>;

/// The value in serde_json's form, one for one; `None` where a number's text
/// is not one that serde_json's `Number` reads.
#[verifier::external_body]
fn to_value(j: &Json) -> Option<serde_json::Value> {
    Some(match j {
        Json::Null => serde_json::Value::Null,
        Json::Bool(b) => serde_json::Value::Bool(*b),
        Json::Number(t) => serde_json::Value::Number(t.parse().ok()?),
        Json::Str(s) => serde_json::Value::String(s.clone()),
        Json::Array(items) => serde_json::Value::Array(items.iter().map(to_value).collect::<Option<_>>()?),
        Json::Object(o) => serde_json::Value::Object(
            o.iter().map(|(k, v)| Some((k.clone(), to_value(v)?))).collect::<Option<_>>()?,
        ),
    })
}

/// A serde_json value in this library's form, one for one, numbers as the
/// text serde_json writes for them.
#[verifier::external_body]
fn from_value(v: &serde_json::Value) -> Json {
    match v {
        serde_json::Value::Null => Json::Null,
        serde_json::Value::Bool(b) => Json::Bool(*b),
        serde_json::Value::Number(n) => Json::Number(n.to_string()),
        serde_json::Value::String(s) => Json::Str(s.clone()),
        serde_json::Value::Array(items) => Json::Array(items.iter().map(from_value).collect()),
        serde_json::Value::Object(m) => Json::Object(m.iter().map(|(k, v)| (k.clone(), from_value(v))).collect()),
    }
}

/// Relies on serde_json::to_string: the compact JSON text of a value, which
/// depends on the value alone.
#[verifier::external_body]
pub(crate) fn json_text(j: &Json) -> (r: Option<String>)
    ensures
        match r {
            Some(t) => json_text_of(j.model()) == Some(t@),
            None => json_text_of(j.model()) is None,
        },
{
    to_value(j).and_then(|v| serde_json::to_string(&v).ok())
}

/// Relies on serde_json::from_str: the JSON value a text holds, which
/// depends on the text alone.
#[verifier::external_body]
pub(crate) fn parse_json(s: &str) -> (r: Option<Json>)
    ensures
        match r {
            Some(j) => json_of(s@) == Some(j.model()),
            None => json_of(s@) is None,
        },
{
    serde_json::from_str::<serde_json::Value>(s).ok().map(|v| from_value(&v))
}

} // verus!
