//! JSON values as the engine reads them: guard parameters, context fields,
//! effect parameters and event metadata.
use vstd::prelude::*;

verus! {

/// A JSON number, held the way a JSON document holds one: a non-negative
/// integer, a negative integer, or a finite binary64 float given by its bit
/// pattern.
#[derive(Clone, Copy, Debug)]
pub enum JsonNumber {
    PosInt(u64),
    NegInt(i64),
    Float(u64),
}

/// A JSON value.  An object keeps one entry per key, in key order.
#[derive(Debug)]
pub enum JsonValue {
    Null,
    Bool(bool),
    Number(JsonNumber),
    String(String),
    Array(Vec<JsonValue>),
    Object(JsonMap),
}

/// A JSON object: a list of keyed entries.  A key is looked up at its first
/// entry.
#[derive(Debug)]
pub struct JsonMap {
    pub entries: Vec<(String, JsonValue)>,
}

/// The mathematical model of a JSON value.
pub enum JsonV {
    Null,
    Bool(bool),
    Number(JsonNumber),
    String(Seq<char>),
    Array(Seq<JsonV>),
    Object(Seq<(Seq<char>, JsonV)>),
}

pub open spec fn json_view(v: JsonValue) -> JsonV
    decreases v,
{
    match v {
        JsonValue::Null => JsonV::Null,
        JsonValue::Bool(b) => JsonV::Bool(b),
        JsonValue::Number(n) => JsonV::Number(n),
        JsonValue::String(s) => JsonV::String(s@),
        JsonValue::Array(a) => JsonV::Array(json_seq_view(a@)),
        JsonValue::Object(m) => JsonV::Object(json_entries_view(m.entries@)),
    }
}

pub open spec fn json_seq_view(s: Seq<JsonValue>) -> Seq<JsonV>
    decreases s,
{
    if s.len() == 0 {
        Seq::empty()
    } else {
        json_seq_view(s.drop_last()).push(json_view(s.last()))
    }
}

pub open spec fn json_entries_view(s: Seq<(String, JsonValue)>) -> Seq<(Seq<char>, JsonV)>
    decreases s,
{
    if s.len() == 0 {
        Seq::empty()
    } else {
        json_entries_view(s.drop_last()).push((s.last().0@, json_view(s.last().1)))
    }
}

pub broadcast proof fn lemma_json_seq_view(s: Seq<JsonValue>)
    ensures
        (#[trigger] json_seq_view(s)).len() == s.len(),
        forall|i: int| 0 <= i < s.len() ==> json_seq_view(s)[i] == json_view(#[trigger] s[i]),
    decreases s.len(),
{
    if s.len() > 0 {
        lemma_json_seq_view(s.drop_last());
        assert forall|i: int| 0 <= i < s.len() implies json_seq_view(s)[i] == json_view(
            #[trigger] s[i],
        ) by {
            if i < s.len() - 1 {
                assert(s.drop_last()[i] == s[i]);
            }
        }
    }
}

pub broadcast proof fn lemma_json_entries_view(s: Seq<(String, JsonValue)>)
    ensures
        (#[trigger] json_entries_view(s)).len() == s.len(),
        forall|i: int|
            0 <= i < s.len() ==> json_entries_view(s)[i] == ((#[trigger] s[i]).0@, json_view(s[i].1)),
    decreases s.len(),
{
    if s.len() > 0 {
        lemma_json_entries_view(s.drop_last());
        assert forall|i: int| 0 <= i < s.len() implies json_entries_view(s)[i] == (
            (#[trigger] s[i]).0@,
            json_view(s[i].1),
        ) by {
            if i < s.len() - 1 {
                assert(s.drop_last()[i] == s[i]);
            }
        }
    }
}

pub broadcast group group_json_views {
    lemma_json_seq_view,
    lemma_json_entries_view,
}

impl View for JsonValue {
    type V = JsonV;

    open spec fn view(&self) -> JsonV {
        json_view(*self)
    }
}

impl View for JsonMap {
    type V = Seq<(Seq<char>, JsonV)>;

    open spec fn view(&self) -> Seq<(Seq<char>, JsonV)> {
        json_entries_view(self.entries@)
    }
}

/// Position of the first entry with key `k`, or the length when there is none.
pub open spec fn key_index<V>(s: Seq<(Seq<char>, V)>, k: Seq<char>) -> int
    decreases s.len(),
{
    if s.len() == 0 {
        0
    } else if s[0].0 == k {
        0
    } else {
        1 + key_index(s.drop_first(), k)
    }
}

/// The value at the first entry with key `k`.
pub open spec fn lookup<V>(s: Seq<(Seq<char>, V)>, k: Seq<char>) -> Option<V> {
    if key_index(s, k) < s.len() {
        Some(s[key_index(s, k)].1)
    } else {
        None
    }
}

pub open spec fn has_key<V>(s: Seq<(Seq<char>, V)>, k: Seq<char>) -> bool {
    exists|i: int| 0 <= i < s.len() && #[trigger] s[i].0 == k
}

pub proof fn lemma_key_index_found<V>(s: Seq<(Seq<char>, V)>, k: Seq<char>, i: int)
    requires
        0 <= i < s.len(),
        s[i].0 == k,
        forall|j: int| 0 <= j < i ==> #[trigger] s[j].0 != k,
    ensures
        key_index(s, k) == i,
        lookup(s, k) == Some(s[i].1),
    decreases i,
{
    if i > 0 {
        assert forall|j: int| 0 <= j < i - 1 implies #[trigger] s.drop_first()[j].0 != k by {
            assert(s.drop_first()[j] == s[j + 1]);
        }
        lemma_key_index_found(s.drop_first(), k, i - 1);
    }
}

pub proof fn lemma_key_index_absent<V>(s: Seq<(Seq<char>, V)>, k: Seq<char>)
    requires
        forall|j: int| 0 <= j < s.len() ==> #[trigger] s[j].0 != k,
    ensures
        key_index(s, k) == s.len(),
        lookup(s, k) is None,
        !has_key(s, k),
    decreases s.len(),
{
    if s.len() > 0 {
        assert forall|j: int| 0 <= j < s.len() - 1 implies #[trigger] s.drop_first()[j].0 != k by {
            assert(s.drop_first()[j] == s[j + 1]);
        }
        lemma_key_index_absent(s.drop_first(), k);
    }
}

pub proof fn lemma_key_index_bounds<V>(s: Seq<(Seq<char>, V)>, k: Seq<char>)
    ensures
        0 <= key_index(s, k) <= s.len(),
        key_index(s, k) < s.len() ==> s[key_index(s, k)].0 == k,
        forall|j: int| 0 <= j < key_index(s, k) ==> #[trigger] s[j].0 != k,
        has_key(s, k) <==> key_index(s, k) < s.len(),
        lookup(s, k) is Some <==> has_key(s, k),
    decreases s.len(),
{
    if s.len() > 0 {
        lemma_key_index_bounds(s.drop_first(), k);
        assert forall|j: int| 0 <= j < key_index(s, k) implies #[trigger] s[j].0 != k by {
            if j > 0 {
                assert(s[j] == s.drop_first()[j - 1]);
            }
        }
        if has_key(s, k) {
            let w = choose|i: int| 0 <= i < s.len() && #[trigger] s[i].0 == k;
            if w > 0 && s[0].0 != k {
                assert(s.drop_first()[w - 1].0 == k);
            }
        }
        if key_index(s, k) < s.len() && key_index(s, k) > 0 {
            assert(s[key_index(s, k)] == s.drop_first()[key_index(s, k) - 1]);
        }
    }
}

/// Two JSON numbers are equal when they are integers of one sign with the
/// same value, or floats with the same value (the two zeros are equal).
pub open spec fn number_eq(a: JsonNumber, b: JsonNumber) -> bool {
    match (a, b) {
        (JsonNumber::PosInt(x), JsonNumber::PosInt(y)) => x == y,
        (JsonNumber::NegInt(x), JsonNumber::NegInt(y)) => x == y,
        (JsonNumber::Float(x), JsonNumber::Float(y)) => x == y || (x % 0x8000_0000_0000_0000u64
            == 0 && y % 0x8000_0000_0000_0000u64 == 0),
        _ => false,
    }
}

/// Equality of JSON values: arrays element by element, objects key by key.
pub open spec fn json_eq(a: JsonV, b: JsonV) -> bool
    decreases a,
{
    match a {
        JsonV::Null => b is Null,
        JsonV::Bool(x) => b matches JsonV::Bool(y) && x == y,
        JsonV::Number(x) => b matches JsonV::Number(y) && number_eq(x, y),
        JsonV::String(x) => b matches JsonV::String(y) && x == y,
        JsonV::Array(xs) => match b {
            JsonV::Array(ys) => xs.len() == ys.len() && forall|i: int|
                0 <= i < xs.len() ==> json_eq(#[trigger] xs[i], ys[i]),
            _ => false,
        },
        JsonV::Object(xs) => match b {
            JsonV::Object(ys) => xs.len() == ys.len() && forall|i: int|
                0 <= i < xs.len() ==> match lookup(ys, (#[trigger] xs[i]).0) {
                    Some(y) => json_eq(xs[i].1, y),
                    None => false,
                },
            _ => false,
        },
    }
}

pub open spec fn is_null_v(v: JsonV) -> bool {
    v is Null
}

/// The value as a string, when it is one.
pub open spec fn as_str_v(v: JsonV) -> Option<Seq<char>> {
    match v {
        JsonV::String(s) => Some(s),
        _ => None,
    }
}

/// The value as an unsigned integer, when it is a non-negative integer.
pub open spec fn as_u64_v(v: JsonV) -> Option<u64> {
    match v {
        JsonV::Number(JsonNumber::PosInt(n)) => Some(n),
        _ => None,
    }
}

/// The value as a signed integer, when it is an integer that fits in `i64`.
pub open spec fn as_i64_v(v: JsonV) -> Option<i64> {
    match v {
        JsonV::Number(JsonNumber::PosInt(n)) => if n <= i64::MAX {
            Some(n as i64)
        } else {
            None
        },
        JsonV::Number(JsonNumber::NegInt(n)) => Some(n),
        _ => None,
    }
}

pub open spec fn as_array_v(v: JsonV) -> Option<Seq<JsonV>> {
    match v {
        JsonV::Array(a) => Some(a),
        _ => None,
    }
}

impl JsonNumber {
    /// Equality of numbers as a JSON document compares them.
    pub fn num_eq(&self, other: &JsonNumber) -> (r: bool)
        ensures
            r == number_eq(*self, *other),
    {
        match (self, other) {
            (JsonNumber::PosInt(x), JsonNumber::PosInt(y)) => *x == *y,
            (JsonNumber::NegInt(x), JsonNumber::NegInt(y)) => *x == *y,
            (JsonNumber::Float(x), JsonNumber::Float(y)) => *x == *y || (*x
                % 0x8000_0000_0000_0000u64 == 0 && *y % 0x8000_0000_0000_0000u64 == 0),
            _ => false,
        }
    }
}

impl JsonValue {
    /// A copy of the value.
    pub fn deep_copy(&self) -> (r: JsonValue)
        ensures
            r@ == self@,
    {
        copy_json(self)
    }

    pub fn is_null(&self) -> (r: bool)
        ensures
            r == is_null_v(self@),
    {
        matches!(self, JsonValue::Null)
    }

    pub fn is_string(&self) -> (r: bool)
        ensures
            r == (self@ is String),
    {
        matches!(self, JsonValue::String(_))
    }

    pub fn is_number(&self) -> (r: bool)
        ensures
            r == (self@ is Number),
    {
        matches!(self, JsonValue::Number(_))
    }

    pub fn is_boolean(&self) -> (r: bool)
        ensures
            r == (self@ is Bool),
    {
        matches!(self, JsonValue::Bool(_))
    }

    pub fn as_str(&self) -> (r: Option<&str>)
        ensures
            match r {
                Some(s) => as_str_v(self@) == Some(s@),
                None => as_str_v(self@) is None,
            },
    {
        match self {
            JsonValue::String(s) => Some(s.as_str()),
            _ => None,
        }
    }

    pub fn as_u64(&self) -> (r: Option<u64>)
        ensures
            r == as_u64_v(self@),
    {
        match self {
            JsonValue::Number(JsonNumber::PosInt(n)) => Some(*n),
            _ => None,
        }
    }

    pub fn as_i64(&self) -> (r: Option<i64>)
        ensures
            r == as_i64_v(self@),
    {
        match self {
            JsonValue::Number(JsonNumber::PosInt(n)) => {
                if *n <= 0x7fff_ffff_ffff_ffffu64 {
                    Some(*n as i64)
                } else {
                    None
                }
            },
            JsonValue::Number(JsonNumber::NegInt(n)) => Some(*n),
            _ => None,
        }
    }

    pub fn as_number(&self) -> (r: Option<JsonNumber>)
        ensures
            match self@ {
                JsonV::Number(n) => r == Some(n),
                _ => r is None,
            },
    {
        match self {
            JsonValue::Number(n) => Some(*n),
            _ => None,
        }
    }

    pub fn as_array(&self) -> (r: Option<&Vec<JsonValue>>)
        ensures
            match r {
                Some(a) => as_array_v(self@) == Some(json_seq_view(a@)),
                None => as_array_v(self@) is None,
            },
    {
        match self {
            JsonValue::Array(a) => Some(a),
            _ => None,
        }
    }
}

/// A copy of a JSON value.
pub fn copy_json(v: &JsonValue) -> (r: JsonValue)
    ensures
        r@ == v@,
    decreases v,
{
    match v {
        JsonValue::Null => JsonValue::Null,
        JsonValue::Bool(b) => JsonValue::Bool(*b),
        JsonValue::Number(n) => JsonValue::Number(*n),
        JsonValue::String(s) => JsonValue::String(s.clone()),
        JsonValue::Array(a) => {
            let mut out: Vec<JsonValue> = Vec::new();
            let mut i: usize = 0;
            while i < a.len()
                invariant
                    *v == JsonValue::Array(*a),
                    i <= a.len(),
                    out.len() == i,
                    forall|j: int| 0 <= j < i ==> (#[trigger] out@[j])@ == a@[j]@,
                decreases a.len() - i,
            {
                proof {
                    assert(*v is Array);
                    assert(v->Array_0 == *a);
                    assert(decreases_to!(*v => v->Array_0));
                    assert(decreases_to!(*a => a[i as int]));
                    assert(decreases_to!(*v => a[i as int]));
                }
                let c = copy_json(&a[i]);
                out.push(c);
                i = i + 1;
            }
            proof {
                lemma_json_seq_view(out@);
                lemma_json_seq_view(a@);
            }
            assert forall|j: int| 0 <= j < a.len() implies json_seq_view(out@)[j] == json_seq_view(a@)[j] by {
                assert(out@[j]@ == a@[j]@);
            }
            assert(json_seq_view(out@) =~= json_seq_view(a@));
            JsonValue::Array(out)
        },
        JsonValue::Object(m) => {
            proof {
                assert(decreases_to!(*v => *m));
            }
            let r = copy_map(m);
            JsonValue::Object(r)
        },
    }
}


/// Equality of two JSON values.
pub fn json_equal(a: &JsonValue, b: &JsonValue) -> (r: bool)
    ensures
        r == json_eq(a@, b@),
    decreases a,
{
    match (a, b) {
        (JsonValue::Null, JsonValue::Null) => true,
        (JsonValue::Bool(x), JsonValue::Bool(y)) => *x == *y,
        (JsonValue::Number(x), JsonValue::Number(y)) => x.num_eq(y),
        (JsonValue::String(x), JsonValue::String(y)) => *x == *y,
        (JsonValue::Array(xs), JsonValue::Array(ys)) => {
            if xs.len() != ys.len() {
                proof {
                    lemma_json_seq_view(xs@);
                    lemma_json_seq_view(ys@);
                }
                return false;
            }
            let mut i: usize = 0;
            while i < xs.len()
                invariant
                    i <= xs.len(),
                    xs.len() == ys.len(),
                    *a == JsonValue::Array(*xs),
                    *b == JsonValue::Array(*ys),
                    a@ == JsonV::Array(json_seq_view(xs@)),
                    b@ == JsonV::Array(json_seq_view(ys@)),
                    forall|j: int| 0 <= j < i ==> json_eq(#[trigger] xs@[j]@, ys@[j]@),
                decreases xs.len() - i,
            {
                proof {
                    assert(decreases_to!(*a => *xs));
                    assert(decreases_to!(*xs => xs[i as int]));
                    assert(decreases_to!(*a => xs[i as int]));
                }
                if !json_equal(&xs[i], &ys[i]) {
                    proof {
                        lemma_json_seq_view(xs@);
                        lemma_json_seq_view(ys@);
                    }
                    assert(json_seq_view(xs@)[i as int] == xs@[i as int]@);
                    return false;
                }
                i = i + 1;
            }
            let ghost xv = json_seq_view(xs@);
            let ghost yv = json_seq_view(ys@);
            proof {
                lemma_json_seq_view(xs@);
                lemma_json_seq_view(ys@);
            }
            assert forall|j: int| 0 <= j < xv.len() implies json_eq(#[trigger] xv[j], yv[j]) by {
                assert(xv[j] == xs@[j]@);
            }
            true
        },
        (JsonValue::Object(xm), JsonValue::Object(ym)) => {
            proof {
                lemma_json_entries_view(xm.entries@);
                lemma_json_entries_view(ym.entries@);
            }
            if xm.entries.len() != ym.entries.len() {
                return false;
            }
            let ghost xv = xm@;
            let ghost yv = ym@;
            let mut i: usize = 0;
            while i < xm.entries.len()
                invariant
                    i <= xm.entries.len(),
                    xv == xm@,
                    yv == ym@,
                    xv.len() == xm.entries.len(),
                    *a == JsonValue::Object(*xm),
                    *b == JsonValue::Object(*ym),
                    a@ == JsonV::Object(xv),
                    b@ == JsonV::Object(yv),
                    forall|j: int| 0 <= j < xm.entries.len() ==> #[trigger] xv[j] == (
                        xm.entries@[j].0@,
                        xm.entries@[j].1@,
                    ),
                    forall|j: int|
                        0 <= j < i ==> match lookup(yv, (#[trigger] xv[j]).0) {
                            Some(y) => json_eq(xv[j].1, y),
                            None => false,
                        },
                decreases xm.entries.len() - i,
            {
                proof {
                    assert(decreases_to!(*a => *xm));
                    assert(decreases_to!(*xm => xm.entries));
                    assert(decreases_to!(xm.entries => xm.entries[i as int]));
                    assert(decreases_to!(xm.entries[i as int] => xm.entries[i as int].1));
                    assert(decreases_to!(*a => xm.entries[i as int].1));
                }
                assert(xv[i as int] == (xm.entries@[i as int].0@, xm.entries@[i as int].1@));
                match ym.get(xm.entries[i].0.as_str()) {
                    None => {
                        return false;
                    },
                    Some(y) => {
                        if !json_equal(&xm.entries[i].1, y) {
                            return false;
                        }
                    },
                }
                i = i + 1;
            }
            true
        },
        _ => false,
    }
}

/// Equality of two strings.
pub fn str_eq(a: &str, b: &str) -> (r: bool)
    ensures
        r == (a@ == b@),
{
    a.to_owned() == b.to_owned()
}

impl JsonMap {
    pub fn new() -> (r: JsonMap)
        ensures
            r@ == Seq::<(Seq<char>, JsonV)>::empty(),
    {
        JsonMap { entries: Vec::new() }
    }

    pub fn len(&self) -> (r: usize)
        ensures
            r == self@.len(),
    {
        proof {
            lemma_json_entries_view(self.entries@);
        }
        self.entries.len()
    }

    fn find(&self, key: &str) -> (r: usize)
        ensures
            r == key_index(self@, key@),
    {
        proof {
            lemma_json_entries_view(self.entries@);
        }
        let mut i: usize = 0;
        while i < self.entries.len()
            invariant
                i <= self.entries.len(),
                self@.len() == self.entries.len(),
                forall|j: int| 0 <= j < self.entries.len() ==> #[trigger] self@[j] == (self.entries@[j].0@, self.entries@[j].1@),
                forall|j: int| 0 <= j < i ==> #[trigger] self@[j].0 != key@,
            decreases self.entries.len() - i,
        {
            if str_eq(self.entries[i].0.as_str(), key) {
                proof {
                    lemma_key_index_found(self@, key@, i as int);
                }
                return i;
            }
            i = i + 1;
        }
        proof {
            lemma_key_index_absent(self@, key@);
        }
        i
    }

    /// The value stored under `key`.
    pub fn get(&self, key: &str) -> (r: Option<&JsonValue>)
        ensures
            match r {
                Some(v) => lookup(self@, key@) == Some(v@),
                None => lookup(self@, key@) is None,
            },
    {
        proof {
            lemma_json_entries_view(self.entries@);
        }
        let i = self.find(key);
        if i < self.entries.len() {
            assert(self@[i as int] == (self.entries@[i as int].0@, self.entries@[i as int].1@));
            Some(&self.entries[i].1)
        } else {
            None
        }
    }

    pub fn contains_key(&self, key: &str) -> (r: bool)
        ensures
            r == lookup(self@, key@) is Some,
    {
        proof {
            lemma_json_entries_view(self.entries@);
        }
        let i = self.find(key);
        i < self.entries.len()
    }

    /// Stores `value` under `key`: the entry of that key is replaced, or a
    /// new entry is added at the end.
    pub fn insert(&mut self, key: String, value: JsonValue)
        ensures
            key_index(old(self)@, key@) < old(self)@.len() ==> final(self)@ == old(self)@.update(
                key_index(old(self)@, key@),
                (key@, value@),
            ),
            key_index(old(self)@, key@) == old(self)@.len() ==> final(self)@ == old(self)@.push(
                (key@, value@),
            ),
            forall|k: Seq<char>|
                #[trigger] lookup(final(self)@, k) == if k == key@ {
                    Some(value@)
                } else {
                    lookup(old(self)@, k)
                },
    {
        proof {
            lemma_json_entries_view(self.entries@);
        }
        let i = self.find(key.as_str());
        let ghost kv = key@;
        let ghost vv = value@;
        let ghost old_v = self@;
        proof {
            lemma_key_index_bounds(old_v, kv);
        }
        if i < self.entries.len() {
            self.entries.set(i, (key, value));
            proof {
                lemma_json_entries_view(self.entries@);
            }
            assert forall|j: int| 0 <= j < self.entries.len() implies self@[j] == old_v.update(i as int, (kv, vv))[j] by {
                assert(self.entries@[j] == old(self).entries@.update(i as int, (key, value))[j]);
            }
            assert(self@ =~= old_v.update(i as int, (kv, vv)));
            assert forall|k: Seq<char>| #[trigger]
                lookup(self@, k) == if k == kv {
                    Some(vv)
                } else {
                    lookup(old_v, k)
                } by {
                lemma_key_index_bounds(old_v, k);
                lemma_key_index_bounds(self@, k);
                if k == kv {
                    lemma_key_index_found(self@, k, i as int);
                } else {
                    let ki = key_index(old_v, k);
                    if ki < old_v.len() {
                        lemma_key_index_found(self@, k, ki);
                    } else {
                        assert forall|j: int| 0 <= j < self@.len() implies #[trigger] self@[j].0
                            != k by {
                            if j != i {
                                assert(self@[j] == old_v[j]);
                            }
                        }
                        lemma_key_index_absent(self@, k);
                    }
                }
            }
        } else {
            self.entries.push((key, value));
            proof {
                lemma_json_entries_view(self.entries@);
            }
            assert forall|j: int| 0 <= j < self.entries.len() implies self@[j] == old_v.push((kv, vv))[j] by {
                assert(self.entries@[j] == old(self).entries@.push((key, value))[j]);
            }
            assert(self@ =~= old_v.push((kv, vv)));
            assert forall|k: Seq<char>| #[trigger]
                lookup(self@, k) == if k == kv {
                    Some(vv)
                } else {
                    lookup(old_v, k)
                } by {
                lemma_key_index_bounds(old_v, k);
                lemma_key_index_bounds(self@, k);
                if k == kv {
                    lemma_key_index_found(self@, k, i as int);
                } else {
                    let ki = key_index(old_v, k);
                    if ki < old_v.len() {
                        lemma_key_index_found(self@, k, ki);
                    } else {
                        assert forall|j: int| 0 <= j < self@.len() implies #[trigger] self@[j].0
                            != k by {
                            if j < old_v.len() {
                                assert(self@[j] == old_v[j]);
                            }
                        }
                        lemma_key_index_absent(self@, k);
                    }
                }
            }
        }
    }

    /// A copy of the map.
    pub fn deep_copy_entries(&self) -> (r: JsonMap)
        ensures
            r@ == self@,
    {
        copy_map(self)
    }
}

/// A copy of a JSON map.
pub fn copy_map(m: &JsonMap) -> (r: JsonMap)
    ensures
        r@ == m@,
    decreases m,
{
    let mut out: Vec<(String, JsonValue)> = Vec::new();
    let mut i: usize = 0;
    while i < m.entries.len()
        invariant
            i <= m.entries.len(),
            out.len() == i,
            forall|j: int|
                0 <= j < i ==> (#[trigger] out@[j]).0@ == m.entries@[j].0@ && out@[j].1@
                    == m.entries@[j].1@,
        decreases m.entries.len() - i,
    {
        proof {
            assert(decreases_to!(*m => m.entries));
            assert(decreases_to!(m.entries => m.entries[i as int]));
            assert(decreases_to!(m.entries[i as int] => m.entries[i as int].1));
            assert(decreases_to!(*m => m.entries[i as int].1));
        }
        let v = copy_json(&m.entries[i].1);
        out.push((m.entries[i].0.clone(), v));
        i = i + 1;
    }
    let r = JsonMap { entries: out };
    proof {
        lemma_json_entries_view(r.entries@);
        lemma_json_entries_view(m.entries@);
    }
    assert forall|j: int| 0 <= j < m.entries.len() implies r@[j] == m@[j] by {
        assert(r.entries@[j].0@ == m.entries@[j].0@);
    }
    assert(r@ =~= m@);
    r
}


} // verus!
