//! The document value model: the mathematical `JsonValue` tree used in
//! specifications, the executable `JsonObject` tree built by the parser, and
//! the narrowing accessors on it.

use vstd::prelude::*;
use vstd::pervasive::VecAdditionalExecFns;
use crate::json::errors::ConversionError;
use crate::text::{
    dec_val, int_body, int_text_val, is_int_text, lemma_dec_val_nonneg, lemma_dec_val_prefix_le,
    lemma_dec_val_snoc, str_eq,
};

verus! {

/// The mathematical model of a document node. An object is a mapping from
/// key text to nested values: keys are unique and insertion order carries no
/// significance, a key written twice keeping only its last value.
pub enum JsonValue {
    Object(Map<Seq<char>, JsonValue>),
    Array(Seq<JsonValue>),
    String(Seq<char>),
    Number(Seq<char>),
    True,
    False,
    Null,
}

/// A number node: the raw decimal/exponent literal text, retained verbatim so
/// that the caller chooses integer or floating conversion later.
#[derive(Debug, PartialEq)]
pub struct JsonNumber(String);

/// The key-to-value mapping of one object node, with unique keys.
#[derive(Debug, PartialEq)]
pub struct JsonMap {
    entries: Vec<(String, JsonObject)>,
}

/// A document node: the tagged-variant tree value a successful parse returns.
#[derive(Debug, PartialEq)]
pub enum JsonObject {
    Object(JsonMap),
    Array(Vec<JsonObject>),
    String(String),
    Number(JsonNumber),
    True,
    False,
    Null,
}

/// The model of an association list: later entries overwrite earlier ones.
pub closed spec fn entries_map(s: Seq<(String, JsonObject)>) -> Map<Seq<char>, JsonValue>
    decreases s,
{
    if s.len() == 0 {
        Map::empty()
    } else {
        entries_map(s.drop_last()).insert(s.last().0@, to_val(s.last().1))
    }
}

/// The model of a sequence of element nodes.
pub closed spec fn elems_val(s: Seq<JsonObject>) -> Seq<JsonValue>
    decreases s,
{
    if s.len() == 0 {
        Seq::empty()
    } else {
        elems_val(s.drop_last()).push(to_val(s.last()))
    }
}

/// The model of a document node.
pub closed spec fn to_val(d: JsonObject) -> JsonValue
    decreases d,
{
    match d {
        JsonObject::Object(m) => JsonValue::Object(entries_map(m.entries@)),
        JsonObject::Array(v) => JsonValue::Array(elems_val(v@)),
        JsonObject::String(s) => JsonValue::String(s@),
        JsonObject::Number(n) => JsonValue::Number(n@),
        JsonObject::True => JsonValue::True,
        JsonObject::False => JsonValue::False,
        JsonObject::Null => JsonValue::Null,
    }
}

/// No key text occurs twice in the association list.
pub open spec fn distinct_keys(s: Seq<(String, JsonObject)>) -> bool {
    forall|i: int, j: int| 0 <= i < j < s.len() ==> s[i].0@ != s[j].0@
}

/// A key is in the model exactly when some entry carries it.
proof fn lemma_entries_map_contains(s: Seq<(String, JsonObject)>, k: Seq<char>)
    ensures
        entries_map(s).contains_key(k) <==> (exists|i: int| 0 <= i < s.len() && s[i].0@ == k),
    decreases s.len(),
{
    if s.len() > 0 {
        lemma_entries_map_contains(s.drop_last(), k);
        if entries_map(s).contains_key(k) {
            if s.last().0@ == k {
                assert(s[s.len() - 1].0@ == k);
            }
        }
        if exists|i: int| 0 <= i < s.len() && s[i].0@ == k {
            let i = choose|i: int| 0 <= i < s.len() && s[i].0@ == k;
            if i < s.len() - 1 {
                assert(s.drop_last()[i].0@ == k);
            }
        }
    }
}

/// With unique keys the model has exactly one mapping per entry.
proof fn lemma_entries_map_len(s: Seq<(String, JsonObject)>)
    requires
        distinct_keys(s),
    ensures
        entries_map(s).dom().finite(),
        entries_map(s).dom().len() == s.len(),
    decreases s.len(),
{
    if s.len() > 0 {
        let t = s.drop_last();
        assert(distinct_keys(t));
        lemma_entries_map_len(t);
        lemma_entries_map_contains(t, s.last().0@);
        assert(forall|i: int| 0 <= i < t.len() ==> t[i] == s[i]);
        assert(!entries_map(t).contains_key(s.last().0@));
    }
}

/// With unique keys each entry's key maps to that entry's value.
proof fn lemma_entries_map_at(s: Seq<(String, JsonObject)>, i: int)
    requires
        distinct_keys(s),
        0 <= i < s.len(),
    ensures
        entries_map(s).contains_key(s[i].0@),
        entries_map(s)[s[i].0@] == to_val(s[i].1),
    decreases s.len(),
{
    if i < s.len() - 1 {
        let t = s.drop_last();
        assert(distinct_keys(t));
        assert(t[i] == s[i]);
        lemma_entries_map_at(t, i);
        assert(s[i].0@ != s.last().0@);
    }
}

/// Appending an entry inserts its mapping.
proof fn lemma_entries_map_push(s: Seq<(String, JsonObject)>, p: (String, JsonObject))
    ensures
        entries_map(s.push(p)) == entries_map(s).insert(p.0@, to_val(p.1)),
{
    assert(s.push(p).drop_last() =~= s);
    assert(s.push(p).last() == p);
}

/// Overwriting the entry that carries a key inserts the new mapping.
proof fn lemma_entries_map_update(s: Seq<(String, JsonObject)>, i: int, p: (String, JsonObject))
    requires
        distinct_keys(s),
        0 <= i < s.len(),
        s[i].0@ == p.0@,
    ensures
        entries_map(s.update(i, p)) == entries_map(s).insert(p.0@, to_val(p.1)),
    decreases s.len(),
{
    let t = s.update(i, p);
    if i == s.len() - 1 {
        assert(t.drop_last() =~= s.drop_last());
        assert(t.last() == p);
        assert(entries_map(t) =~= entries_map(s).insert(p.0@, to_val(p.1)));
    } else {
        let sd = s.drop_last();
        assert(distinct_keys(sd));
        assert(sd[i] == s[i]);
        lemma_entries_map_update(sd, i, p);
        assert(t.drop_last() =~= sd.update(i, p));
        assert(t.last() == s.last());
        assert(s[i].0@ != s.last().0@);
        assert(entries_map(t) =~= entries_map(s).insert(p.0@, to_val(p.1)));
    }
}

/// The model of an element sequence has the elements' models, in order.
pub proof fn lemma_elems_val(s: Seq<JsonObject>)
    ensures
        elems_val(s).len() == s.len(),
        forall|i: int| 0 <= i < s.len() ==> elems_val(s)[i] == #[trigger] s[i]@,
    decreases s.len(),
{
    if s.len() > 0 {
        lemma_elems_val(s.drop_last());
        assert(forall|i: int| 0 <= i < s.len() - 1 ==> s.drop_last()[i] == s[i]);
    }
}

/// How an object node's model reads.
pub proof fn lemma_view_object(m: JsonMap)
    ensures
        (JsonObject::Object(m))@ == JsonValue::Object(m@),
{
}

/// How an array node's model reads.
pub proof fn lemma_view_array(a: Vec<JsonObject>)
    ensures
        (JsonObject::Array(a))@ == JsonValue::Array(elems_val(a@)),
{
}

/// How a string node's model reads.
pub proof fn lemma_view_string(s: String)
    ensures
        (JsonObject::String(s))@ == JsonValue::String(s@),
{
}

/// How a number node's model reads.
pub proof fn lemma_view_number(x: JsonNumber)
    ensures
        (JsonObject::Number(x))@ == JsonValue::Number(x@),
{
}

/// How the keyword nodes' models read.
pub proof fn lemma_view_atoms()
    ensures
        (JsonObject::True)@ == JsonValue::True,
        (JsonObject::False)@ == JsonValue::False,
        (JsonObject::Null)@ == JsonValue::Null,
{
}

/// Appending an element appends its model.
pub proof fn lemma_elems_val_push(s: Seq<JsonObject>, d: JsonObject)
    ensures
        elems_val(s.push(d)) == elems_val(s).push(d@),
{
    assert(s.push(d).drop_last() =~= s);
}

impl JsonMap {
    /// Key texts are pairwise distinct; every `JsonMap` maintains this.
    #[verifier::type_invariant]
    closed spec fn wf(self) -> bool {
        distinct_keys(self.entries@)
    }

    /// An empty mapping.
    pub fn new() -> (r: JsonMap)
        ensures
            r@ == Map::<Seq<char>, JsonValue>::empty(),
    {
        JsonMap { entries: Vec::new() }
    }

    /// How many keys the object holds.
    pub fn len(&self) -> (r: usize)
        ensures
            r == self@.dom().len(),
    {
        proof {
            use_type_invariant(self);
            lemma_entries_map_len(self.entries@);
        }
        self.entries.len()
    }

    /// The object holds no key at all.
    pub fn is_empty(&self) -> (r: bool)
        ensures
            r == (self@.dom().len() == 0),
    {
        proof {
            use_type_invariant(self);
            lemma_entries_map_len(self.entries@);
        }
        self.entries.len() == 0
    }

    /// Looks a key up, returning the value it maps to.
    pub fn get(&self, key: &str) -> (r: Option<&JsonObject>)
        ensures
            match r {
                Some(v) => self@.contains_key(key@) && v@ == self@[key@],
                None => !self@.contains_key(key@),
            },
    {
        proof {
            use_type_invariant(self);
        }
        let n = self.entries.len();
        let mut i: usize = 0;
        while i < n
            invariant
                0 <= i <= n,
                n == self.entries@.len(),
                distinct_keys(self.entries@),
                forall|j: int| 0 <= j < i ==> self.entries@[j].0@ != key@,
            decreases n - i,
        {
            if str_eq(self.entries[i].0.as_str(), key) {
                proof {
                    lemma_entries_map_at(self.entries@, i as int);
                }
                return Some(&self.entries[i].1);
            }
            i = i + 1;
        }
        proof {
            lemma_entries_map_contains(self.entries@, key@);
        }
        None
    }

    /// Binds `key` to `value`; a key written twice keeps only the later
    /// value (last write wins).
    pub fn insert(&mut self, key: String, value: JsonObject)
        ensures
            final(self)@ == old(self)@.insert(key@, value@),
    {
        proof {
            use_type_invariant(&*self);
        }
        let mut entries: Vec<(String, JsonObject)> = Vec::new();
        core::mem::swap(&mut entries, &mut self.entries);
        let n = entries.len();
        let mut i: usize = 0;
        while i < n
            invariant
                0 <= i <= n,
                n == entries@.len(),
                distinct_keys(entries@),
                entries@ == old(self).entries@,
                forall|j: int| 0 <= j < i ==> entries@[j].0@ != key@,
            decreases n - i,
        {
            if str_eq(entries[i].0.as_str(), key.as_str()) {
                proof {
                    lemma_entries_map_update(entries@, i as int, (key, value));
                }
                entries.set(i, (key, value));
                self.entries = entries;
                return ;
            }
            i = i + 1;
        }
        proof {
            lemma_entries_map_contains(entries@, key@);
            lemma_entries_map_push(entries@, (key, value));
        }
        entries.push((key, value));
        self.entries = entries;
    }

    /// The entries as a list of key-value pairs, each key unique and bound to
    /// the value the model gives it.
    pub fn entry_list(&self) -> (r: &Vec<(String, JsonObject)>)
        ensures
            r@.len() == self@.dom().len(),
            forall|i: int, j: int| 0 <= i < j < r@.len() ==> r@[i].0@ != r@[j].0@,
            forall|i: int|
                0 <= i < r@.len() ==> self@.contains_key((#[trigger] r@[i]).0@) && self@[r@[i].0@]
                    == r@[i].1@,
    {
        proof {
            use_type_invariant(self);
            lemma_entries_map_len(self.entries@);
            assert forall|i: int| 0 <= i < self.entries@.len() implies self@.contains_key(
                (#[trigger] self.entries@[i]).0@,
            ) && self@[self.entries@[i].0@] == self.entries@[i].1@ by {
                lemma_entries_map_at(self.entries@, i);
            }
        }
        &self.entries
    }
}

impl View for JsonNumber {
    type V = Seq<char>;

    closed spec fn view(&self) -> Seq<char> {
        self.0@
    }
}

impl View for JsonMap {
    type V = Map<Seq<char>, JsonValue>;

    closed spec fn view(&self) -> Map<Seq<char>, JsonValue> {
        entries_map(self.entries@)
    }
}

impl View for JsonObject {
    type V = JsonValue;

    closed spec fn view(&self) -> JsonValue {
        to_val(*self)
    }
}

impl JsonNumber {
    /// Wraps raw number text.
    pub fn new(num: String) -> (r: JsonNumber)
        ensures
            r@ == num@,
    {
        JsonNumber(num)
    }

    /// The retained literal text, verbatim.
    pub fn raw(&self) -> (r: &str)
        ensures
            r@ == self@,
    {
        self.0.as_str()
    }

    /// Converts the retained text to a fixed-width integer. Succeeds exactly
    /// on optionally signed digit runs whose value fits `i32`; any other text
    /// (a decimal point, an exponent, an empty run) is rejected as invalid,
    /// and a plain integer beyond the range is rejected as out of range.
    #[verifier::rlimit(50)]
    pub fn to_i32(&self) -> (r: Result<i32, ConversionError>)
        ensures
            match r {
                Ok(v) => is_int_text(self@) && i32::MIN <= int_text_val(self@) <= i32::MAX && v
                    == int_text_val(self@),
                Err(ConversionError::Invalid) => !is_int_text(self@),
                Err(ConversionError::OutOfRange) => is_int_text(self@) && !(i32::MIN
                    <= int_text_val(self@) <= i32::MAX),
            },
    {
        let s = self.0.as_str();
        let n = s.unicode_len();
        if n == 0 {
            return Err(ConversionError::Invalid);
        }
        let c0 = s.get_char(0);
        let neg = c0 == '-';
        let start: usize = if c0 == '-' || c0 == '+' {
            1
        } else {
            0
        };
        proof {
            assert(int_body(s@) =~= s@.subrange(start as int, n as int));
        }
        if start == n {
            return Err(ConversionError::Invalid);
        }
        let mut i: usize = start;
        while i < n
            invariant
                start <= i <= n,
                n == s@.len(),
                s@ == self@,
                int_body(s@) == s@.subrange(start as int, n as int),
                forall|j: int| start <= j < i ==> '0' <= #[trigger] s@[j] <= '9',
            decreases n - i,
        {
            let c = s.get_char(i) as u32;
            if c < 48 || c > 57 {
                proof {
                    assert(int_body(s@)[i - start] == s@[i as int]);
                    assert(!('0' <= s@[i as int] <= '9'));
                }
                return Err(ConversionError::Invalid);
            }
            i = i + 1;
        }
        let ghost body = int_body(s@);
        proof {
            assert(is_int_text(s@));
            lemma_dec_val_nonneg(body);
        }
        let limit: u64 = if neg {
            2147483648
        } else {
            2147483647
        };
        proof {
            assert(body.subrange(0, 0) =~= Seq::<char>::empty());
        }
        let mut acc: u64 = 0;
        let mut k: usize = start;
        while k < n
            invariant
                start <= k <= n,
                start < n,
                n == s@.len(),
                s@ == self@,
                is_int_text(s@),
                body == int_body(s@),
                body == s@.subrange(start as int, n as int),
                neg == (s@[0] == '-'),
                acc == dec_val(body.subrange(0, k - start)),
                acc <= limit,
                limit == if neg {
                    2147483648u64
                } else {
                    2147483647u64
                },
            decreases n - k,
        {
            proof {
                assert(s@[k as int] == body[k - start]);
                assert('0' <= body[k - start] <= '9');
            }
            let d = (s.get_char(k) as u32 - 48) as u64;
            proof {
                let pre = body.subrange(0, k - start);
                let post = body.subrange(0, k + 1 - start);
                assert(post.drop_last() =~= pre);
                assert(post.last() == s@[k as int]);
                lemma_dec_val_snoc(pre, s@[k as int]);
                assert(dec_val(post) == acc * 10 + d);
            }
            acc = acc * 10 + d;
            if acc > limit {
                proof {
                    lemma_dec_val_prefix_le(body, k + 1 - start);
                    assert(dec_val(body.subrange(0, k + 1 - start)) == acc);
                    assert(dec_val(body) >= acc);
                    if neg {
                        assert(s@[0] == '-');
                        assert(int_text_val(s@) == -dec_val(body));
                        assert(int_text_val(s@) < i32::MIN);
                    } else {
                        assert(s@.len() > 0 && s@[0] == '-' ==> false);
                        assert(int_text_val(s@) == dec_val(body));
                        assert(int_text_val(s@) > i32::MAX);
                    }
                }
                return Err(ConversionError::OutOfRange);
            }
            k = k + 1;
        }
        proof {
            assert(body.subrange(0, n - start) =~= body);
            assert(acc == dec_val(body));
        }
        if neg {
            let v: i64 = 0i64 - (acc as i64);
            Ok(v as i32)
        } else {
            Ok(acc as i32)
        }
    }
}

impl JsonObject {
    /// Projects the object case: the key-value mapping, or nothing for any
    /// other variant.
    pub fn object(&self) -> (r: Option<&JsonMap>)
        ensures
            match r {
                Some(m) => self@ == JsonValue::Object(m@),
                None => !(self@ is Object),
            },
    {
        match self {
            JsonObject::Object(m) => Some(m),
            _ => None,
        }
    }

    /// Projects the array case: the element list, each element's model at
    /// its position, or nothing for any other variant.
    pub fn array(&self) -> (r: Option<&Vec<JsonObject>>)
        ensures
            match r {
                Some(a) => self@ matches JsonValue::Array(elems) && elems.len() == a@.len() && (
                forall|i: int| 0 <= i < a@.len() ==> elems[i] == #[trigger] a@[i]@),
                None => !(self@ is Array),
            },
    {
        match self {
            JsonObject::Array(a) => {
                proof {
                    lemma_elems_val(a@);
                }
                Some(a)
            },
            _ => None,
        }
    }

    /// Projects the string case: the decoded text, or nothing.
    pub fn string(&self) -> (r: Option<&String>)
        ensures
            match r {
                Some(s) => self@ == JsonValue::String(s@),
                None => !(self@ is String),
            },
    {
        match self {
            JsonObject::String(s) => Some(s),
            _ => None,
        }
    }

    /// Projects the number case: the raw literal, or nothing.
    pub fn number(&self) -> (r: Option<&JsonNumber>)
        ensures
            match r {
                Some(x) => self@ == JsonValue::Number(x@),
                None => !(self@ is Number),
            },
    {
        match self {
            JsonObject::Number(x) => Some(x),
            _ => None,
        }
    }

    /// Projects the two boolean cases, or nothing for any other variant.
    pub fn bool(&self) -> (r: Option<bool>)
        ensures
            r == match self@ {
                JsonValue::True => Some(true),
                JsonValue::False => Some(false),
                _ => None::<bool>,
            },
    {
        match self {
            JsonObject::True => Some(true),
            JsonObject::False => Some(false),
            _ => None,
        }
    }

    /// Whether this node is the null value.
    pub fn null(&self) -> (r: bool)
        ensures
            r == (self@ is Null),
    {
        match self {
            JsonObject::Null => true,
            _ => false,
        }
    }
}

} // verus!
