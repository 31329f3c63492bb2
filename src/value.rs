//! Dynamic values and their conversion to and from host values.

use vstd::prelude::*;

verus! {

broadcast use vstd::std_specs::vec::axiom_vec_index_decreases;

/// The exponent field of an IEEE-754 double given by its bit pattern.
pub open spec fn exponent_bits(bits: u64) -> int {
    (bits as int / 0x10_0000_0000_0000) % 2048
}

/// A double is finite (neither infinite nor NaN) when its exponent is not all ones.
pub open spec fn is_finite_bits(bits: u64) -> bool {
    exponent_bits(bits) != 2047
}

/// A number, tagged as integer or as floating point at construction.
/// A float is held as the bit pattern of an IEEE-754 double.
#[derive(Clone, Copy, Debug, PartialEq, Eq, Structural)]
pub enum Number {
    Int(i64),
    Float(u64),
}

impl Number {
    /// The float number of a double's bit pattern; `None` for an infinity or NaN.
    pub fn float(bits: u64) -> (r: Option<Number>)
        ensures
            r is Some <==> is_finite_bits(bits),
            r is Some ==> r == Some(Number::Float(bits)),
    {
        if bits / 0x10_0000_0000_0000 % 2048 != 2047 {
            Some(Number::Float(bits))
        } else {
            None
        }
    }
}

/// A dynamic value. Object entries keep their insertion order.
#[derive(Debug, PartialEq)]
pub enum Json {
    Null,
    Bool(bool),
    Number(Number),
    String(String),
    Array(Vec<Json>),
    Object(Vec<(String, Json)>),
}

/// The mathematical form of a `Json`.
pub enum JsonV {
    Null,
    Bool(bool),
    Number(Number),
    String(Seq<char>),
    Array(Seq<JsonV>),
    Object(Seq<(Seq<char>, JsonV)>),
}

/// A value of the host's object model, as its runtime type tag reads it.
/// `Other` is any object of a type that has no dynamic-value shape; it carries
/// the name of that type.
#[derive(Debug, PartialEq)]
pub enum HostValue {
    Nil,
    Bool(bool),
    Int(i128),
    Float(u64),
    Str(String),
    List(Vec<HostValue>),
    Dict(Vec<(HostValue, HostValue)>),
    Other(String),
}

/// The mathematical form of a `HostValue`.
pub enum HostV {
    Nil,
    Bool(bool),
    Int(int),
    Float(u64),
    Str(Seq<char>),
    List(Seq<HostV>),
    Dict(Seq<(HostV, HostV)>),
    Other(Seq<char>),
}

/// The recoverable errors of the bridge.
#[derive(Debug, PartialEq, Eq)]
pub enum BridgeError {
    /// A host value has no dynamic-value shape.
    UnsupportedType,
    /// A float that is not finite, or an integer outside the range of `i64`.
    InvalidNumber,
    /// The native engine reported an error; its message is carried verbatim.
    NativeFailure(String),
}

impl Json {
    pub open spec fn dv(self) -> JsonV
        decreases self,
    {
        match self {
            Json::Null => JsonV::Null,
            Json::Bool(b) => JsonV::Bool(b),
            Json::Number(n) => JsonV::Number(n),
            Json::String(s) => JsonV::String(s@),
            Json::Array(a) => JsonV::Array(
                Seq::new(
                    a.len() as nat,
                    |i: int| if 0 <= i < a.len() { a[i].dv() } else { JsonV::Null },
                ),
            ),
            Json::Object(o) => JsonV::Object(
                Seq::new(
                    o.len() as nat,
                    |i: int|
                        if 0 <= i < o.len() {
                            (o[i].0@, o[i].1.dv())
                        } else {
                            (Seq::empty(), JsonV::Null)
                        },
                ),
            ),
        }
    }
}

impl HostValue {
    pub open spec fn hv(self) -> HostV
        decreases self,
    {
        match self {
            HostValue::Nil => HostV::Nil,
            HostValue::Bool(b) => HostV::Bool(b),
            HostValue::Int(i) => HostV::Int(i as int),
            HostValue::Float(b) => HostV::Float(b),
            HostValue::Str(s) => HostV::Str(s@),
            HostValue::List(a) => HostV::List(
                Seq::new(
                    a.len() as nat,
                    |i: int| if 0 <= i < a.len() { a[i].hv() } else { HostV::Nil },
                ),
            ),
            HostValue::Dict(d) => HostV::Dict(
                Seq::new(
                    d.len() as nat,
                    |i: int|
                        if 0 <= i < d.len() {
                            (d[i].0.hv(), d[i].1.hv())
                        } else {
                            (HostV::Nil, HostV::Nil)
                        },
                ),
            ),
            HostValue::Other(s) => HostV::Other(s@),
        }
    }
}

/// No two entries share a key.
pub open spec fn keys_unique(es: Seq<(Seq<char>, JsonV)>) -> bool {
    forall|i: int, j: int| 0 <= i < j < es.len() ==> es[i].0 != es[j].0
}

/// `k` is the key of some entry.
pub open spec fn has_key(es: Seq<(Seq<char>, JsonV)>, k: Seq<char>) -> bool {
    exists|j: int| 0 <= j < es.len() && es[j].0 == k
}

/// A well-formed dynamic value: every float is finite and no object repeats a key.
pub open spec fn json_wf(v: JsonV) -> bool
    decreases v,
{
    match v {
        JsonV::Number(Number::Float(b)) => is_finite_bits(b),
        JsonV::Array(xs) => forall|i: int| 0 <= i < xs.len() ==> json_wf(#[trigger] xs[i]),
        JsonV::Object(es) => keys_unique(es) && forall|i: int|
            0 <= i < es.len() ==> json_wf(#[trigger] es[i].1),
        _ => true,
    }
}

/// Inserts an entry into an object: a present key keeps its place and takes
/// the new value; a new key goes last.
pub open spec fn obj_insert(es: Seq<(Seq<char>, JsonV)>, k: Seq<char>, x: JsonV) -> Seq<
    (Seq<char>, JsonV),
> {
    if has_key(es, k) {
        let j = choose|j: int| 0 <= j < es.len() && es[j].0 == k;
        es.update(j, (k, x))
    } else {
        es.push((k, x))
    }
}

/// The host form of a dynamic value.
pub open spec fn to_host_v(v: JsonV) -> HostV
    decreases v,
{
    match v {
        JsonV::Null => HostV::Nil,
        JsonV::Bool(b) => HostV::Bool(b),
        JsonV::Number(Number::Int(i)) => HostV::Int(i as int),
        JsonV::Number(Number::Float(b)) => HostV::Float(b),
        JsonV::String(s) => HostV::Str(s),
        JsonV::Array(xs) => HostV::List(
            Seq::new(
                xs.len(),
                |i: int| if 0 <= i < xs.len() { to_host_v(xs[i]) } else { HostV::Nil },
            ),
        ),
        JsonV::Object(es) => HostV::Dict(
            Seq::new(
                es.len(),
                |i: int|
                    if 0 <= i < es.len() {
                        (HostV::Str(es[i].0), to_host_v(es[i].1))
                    } else {
                        (HostV::Nil, HostV::Nil)
                    },
            ),
        ),
    }
}

/// The dynamic value of a host value, or the first error met, elements and
/// entries taken in order (of an entry, its value before its key).
pub open spec fn from_host_v(h: HostV) -> Result<JsonV, BridgeError>
    decreases h, 0nat,
{
    match h {
        HostV::Nil => Ok(JsonV::Null),
        HostV::Bool(b) => Ok(JsonV::Bool(b)),
        HostV::Int(i) => if i64::MIN <= i <= i64::MAX {
            Ok(JsonV::Number(Number::Int(i as i64)))
        } else {
            Err(BridgeError::InvalidNumber)
        },
        HostV::Float(b) => if is_finite_bits(b) {
            Ok(JsonV::Number(Number::Float(b)))
        } else {
            Err(BridgeError::InvalidNumber)
        },
        HostV::Str(s) => Ok(JsonV::String(s)),
        HostV::List(items) => match list_from(items, items.len()) {
            Ok(xs) => Ok(JsonV::Array(xs)),
            Err(e) => Err(e),
        },
        HostV::Dict(es) => match dict_from(es, es.len()) {
            Ok(p) => Ok(JsonV::Object(p)),
            Err(e) => Err(e),
        },
        HostV::Other(_) => Err(BridgeError::UnsupportedType),
    }
}

/// The conversion of the first `n` items of a host list.
pub open spec fn list_from(items: Seq<HostV>, n: nat) -> Result<Seq<JsonV>, BridgeError>
    decreases items, n,
{
    if n == 0 || n > items.len() {
        Ok(Seq::empty())
    } else {
        match list_from(items, (n - 1) as nat) {
            Err(e) => Err(e),
            Ok(xs) => match from_host_v(items[n - 1]) {
                Err(e) => Err(e),
                Ok(x) => Ok(xs.push(x)),
            },
        }
    }
}

/// The conversion of the first `n` entries of a host mapping.
pub open spec fn dict_from(es: Seq<(HostV, HostV)>, n: nat) -> Result<
    Seq<(Seq<char>, JsonV)>,
    BridgeError,
>
    decreases es, n,
{
    if n == 0 || n > es.len() {
        Ok(Seq::empty())
    } else {
        match dict_from(es, (n - 1) as nat) {
            Err(e) => Err(e),
            Ok(p) => match from_host_v(es[n - 1].1) {
                Err(e) => Err(e),
                Ok(x) => match es[n - 1].0 {
                    HostV::Str(k) => Ok(obj_insert(p, k, x)),
                    _ => Err(BridgeError::UnsupportedType),
                },
            },
        }
    }
}

/// Converts a dynamic value to its host form. Total: every value has one.
pub fn to_host(v: &Json) -> (r: HostValue)
    ensures
        r.hv() == to_host_v(v.dv()),
    decreases v,
{
    match v {
        Json::Null => HostValue::Nil,
        Json::Bool(b) => HostValue::Bool(*b),
        Json::Number(Number::Int(i)) => HostValue::Int(*i as i128),
        Json::Number(Number::Float(b)) => HostValue::Float(*b),
        Json::String(s) => HostValue::Str(s.clone()),
        Json::Array(a) => {
            let mut out: Vec<HostValue> = Vec::new();
            let mut i: usize = 0;
            while i < a.len()
                invariant
                    *v == Json::Array(*a),
                    i <= a.len(),
                    out@.len() == i,
                    forall|j: int| 0 <= j < i ==> (#[trigger] out@[j]).hv() == to_host_v(a@[j].dv()),
                decreases a.len() - i,
            {
                proof {
                    assert(decreases_to!(*a => a[i as int]));
                    assert(decreases_to!(*v => v->Array_0));
                }
                let h = to_host(&a[i]);
                out.push(h);
                i = i + 1;
            }
            let r = HostValue::List(out);
            assert(r.hv()->List_0 =~= to_host_v(v.dv())->List_0);
            r
        },
        Json::Object(o) => {
            let mut out: Vec<(HostValue, HostValue)> = Vec::new();
            let mut i: usize = 0;
            while i < o.len()
                invariant
                    *v == Json::Object(*o),
                    i <= o.len(),
                    out@.len() == i,
                    forall|j: int|
                        0 <= j < i ==> (#[trigger] out@[j]).0.hv() == HostV::Str(o@[j].0@)
                            && out@[j].1.hv() == to_host_v(o@[j].1.dv()),
                decreases o.len() - i,
            {
                let k = HostValue::Str(o[i].0.clone());
                proof {
                    assert(decreases_to!(*o => o[i as int]));
                    assert(decreases_to!(*v => v->Object_0));
                }
                let h = to_host(&o[i].1);
                out.push((k, h));
                i = i + 1;
            }
            let r = HostValue::Dict(out);
            assert(r.hv()->Dict_0 =~= to_host_v(v.dv())->Dict_0);
            r
        },
    }
}

/// The mathematical form of a sequence of values.
pub open spec fn items_v(s: Seq<Json>) -> Seq<JsonV> {
    Seq::new(s.len(), |i: int| s[i].dv())
}

/// The mathematical form of a sequence of object entries.
pub open spec fn entries_v(s: Seq<(String, Json)>) -> Seq<(Seq<char>, JsonV)> {
    Seq::new(s.len(), |i: int| (s[i].0@, s[i].1.dv()))
}

/// The mathematical form of a conversion result.
pub open spec fn result_dv(r: Result<Json, BridgeError>) -> Result<JsonV, BridgeError> {
    match r {
        Ok(j) => Ok(j.dv()),
        Err(e) => Err(e),
    }
}

proof fn lemma_list_err_sticks(items: Seq<HostV>, i: nat, n: nat)
    requires
        i <= n <= items.len(),
        list_from(items, i) is Err,
    ensures
        list_from(items, n) == list_from(items, i),
    decreases n - i,
{
    if n > i {
        lemma_list_err_sticks(items, i, (n - 1) as nat);
    }
}

proof fn lemma_dict_err_sticks(es: Seq<(HostV, HostV)>, i: nat, n: nat)
    requires
        i <= n <= es.len(),
        dict_from(es, i) is Err,
    ensures
        dict_from(es, n) == dict_from(es, i),
    decreases n - i,
{
    if n > i {
        lemma_dict_err_sticks(es, i, (n - 1) as nat);
    }
}

/// Inserting an entry keeps the keys of an object unique.
proof fn lemma_insert_keeps_unique(es: Seq<(Seq<char>, JsonV)>, k: Seq<char>, x: JsonV)
    requires
        keys_unique(es),
    ensures
        keys_unique(obj_insert(es, k, x)),
{
}

/// Inserts an entry into an object whose keys are unique: a present key keeps
/// its place and takes the new value, a new key goes last.
pub fn insert_entry(p: &mut Vec<(String, Json)>, k: String, x: Json)
    requires
        keys_unique(entries_v(old(p)@)),
    ensures
        entries_v(final(p)@) == obj_insert(entries_v(old(p)@), k@, x.dv()),
        keys_unique(entries_v(final(p)@)),
{
    let ghost es = entries_v(p@);
    let ghost xv = x.dv();
    proof {
        lemma_insert_keeps_unique(es, k@, xv);
    }
    let mut j: usize = 0;
    while j < p.len()
        invariant
            j <= p.len(),
            p@ == old(p)@,
            es == entries_v(p@),
            keys_unique(es),
            xv == x.dv(),
            forall|t: int| 0 <= t < j ==> (#[trigger] p@[t]).0@ != k@,
        decreases p.len() - j,
    {
        if p[j].0 == k {
            let ghost kv = k@;
            assert(es[j as int].0 == kv);
            assert(has_key(es, kv));
            let ghost c = choose|c: int| 0 <= c < es.len() && es[c].0 == kv;
            assert(c == j);
            assert(obj_insert(es, kv, xv) == es.update(j as int, (kv, xv)));
            p[j] = (k, x);
            assert(entries_v(p@) =~= es.update(j as int, (kv, xv)));
            return;
        }
        j = j + 1;
    }
    assert(!has_key(es, k@));
    let ghost kv = k@;
    p.push((k, x));
    assert(entries_v(p@) =~= es.push((kv, xv)));
}

/// Converts a host value to a dynamic value. Elements and entries are taken
/// in order and the first error met is returned: `UnsupportedType` for an
/// object of another type or a mapping key that is not a string,
/// `InvalidNumber` for a float that is not finite or an integer outside `i64`.
pub fn from_host(h: &HostValue) -> (r: Result<Json, BridgeError>)
    ensures
        result_dv(r) == from_host_v(h.hv()),
    decreases h,
{
    match h {
        HostValue::Nil => Ok(Json::Null),
        HostValue::Bool(b) => Ok(Json::Bool(*b)),
        HostValue::Int(i) => {
            if i64::MIN as i128 <= *i && *i <= i64::MAX as i128 {
                Ok(Json::Number(Number::Int(*i as i64)))
            } else {
                Err(BridgeError::InvalidNumber)
            }
        },
        HostValue::Float(b) => match Number::float(*b) {
            Some(n) => Ok(Json::Number(n)),
            None => Err(BridgeError::InvalidNumber),
        },
        HostValue::Str(s) => Ok(Json::String(s.clone())),
        HostValue::List(items) => {
            let ghost hs = h.hv()->List_0;
            let mut out: Vec<Json> = Vec::new();
            let mut i: usize = 0;
            assert(items_v(out@) =~= Seq::<JsonV>::empty());
            while i < items.len()
                invariant
                    *h == HostValue::List(*items),
                    hs == h.hv()->List_0,
                    i <= items.len(),
                    list_from(hs, i as nat) == Ok::<Seq<JsonV>, BridgeError>(items_v(out@)),
                decreases items.len() - i,
            {
                proof {
                    assert(decreases_to!(*items => items[i as int]));
                    assert(decreases_to!(*h => h->List_0));
                    assert(hs[i as int] == items@[i as int].hv());
                }
                match from_host(&items[i]) {
                    Ok(x) => {
                        let ghost before = out@;
                        out.push(x);
                        assert(items_v(out@) =~= items_v(before).push(out@.last().dv()));
                    },
                    Err(e) => {
                        proof {
                            lemma_list_err_sticks(hs, (i + 1) as nat, hs.len());
                        }
                        return Err(e);
                    },
                }
                i = i + 1;
            }
            let r = Json::Array(out);
            assert(r.dv()->Array_0 =~= items_v(out@));
            Ok(r)
        },
        HostValue::Dict(es) => {
            let ghost hs = h.hv()->Dict_0;
            let mut out: Vec<(String, Json)> = Vec::new();
            let mut i: usize = 0;
            assert(entries_v(out@) =~= Seq::<(Seq<char>, JsonV)>::empty());
            while i < es.len()
                invariant
                    *h == HostValue::Dict(*es),
                    hs == h.hv()->Dict_0,
                    i <= es.len(),
                    dict_from(hs, i as nat) == Ok::<Seq<(Seq<char>, JsonV)>, BridgeError>(
                        entries_v(out@),
                    ),
                    keys_unique(entries_v(out@)),
                decreases es.len() - i,
            {
                proof {
                    assert(decreases_to!(*es => es[i as int]));
                    assert(decreases_to!(*h => h->Dict_0));
                    assert(hs[i as int] == (es@[i as int].0.hv(), es@[i as int].1.hv()));
                }
                match from_host(&es[i].1) {
                    Ok(x) => match &es[i].0 {
                        HostValue::Str(k) => {
                            insert_entry(&mut out, k.clone(), x);
                        },
                        _ => {
                            proof {
                                lemma_dict_err_sticks(hs, (i + 1) as nat, hs.len());
                            }
                            return Err(BridgeError::UnsupportedType);
                        },
                    },
                    Err(e) => {
                        proof {
                            lemma_dict_err_sticks(hs, (i + 1) as nat, hs.len());
                        }
                        return Err(e);
                    },
                }
                i = i + 1;
            }
            let r = Json::Object(out);
            assert(r.dv()->Object_0 =~= entries_v(out@));
            Ok(r)
        },
        HostValue::Other(_) => Err(BridgeError::UnsupportedType),
    }
}

/// Round trip: converting a well-formed dynamic value to its host form and
/// back gives the same value, with the order of array elements and of object
/// keys kept at every depth.
pub proof fn lemma_round_trip(v: JsonV)
    requires
        json_wf(v),
    ensures
        from_host_v(to_host_v(v)) == Ok::<JsonV, BridgeError>(v),
    decreases v, 0nat,
{
    match v {
        JsonV::Array(xs) => {
            lemma_list_round_trip(xs, xs.len());
            assert(xs.take(xs.len() as int) =~= xs);
        },
        JsonV::Object(es) => {
            lemma_dict_round_trip(es, es.len());
            assert(es.take(es.len() as int) =~= es);
        },
        _ => {},
    }
}

proof fn lemma_list_round_trip(xs: Seq<JsonV>, n: nat)
    requires
        n <= xs.len(),
        forall|i: int| 0 <= i < xs.len() ==> json_wf(#[trigger] xs[i]),
    ensures
        list_from(to_host_v(JsonV::Array(xs))->List_0, n) == Ok::<Seq<JsonV>, BridgeError>(
            xs.take(n as int),
        ),
    decreases xs, n,
{
    let hs = to_host_v(JsonV::Array(xs))->List_0;
    if n > 0 {
        lemma_list_round_trip(xs, (n - 1) as nat);
        lemma_round_trip(xs[n - 1]);
        assert(hs[n - 1] == to_host_v(xs[n - 1]));
        assert(xs.take(n - 1).push(xs[n - 1]) =~= xs.take(n as int));
    } else {
        assert(xs.take(0) =~= Seq::<JsonV>::empty());
    }
}

proof fn lemma_dict_round_trip(es: Seq<(Seq<char>, JsonV)>, n: nat)
    requires
        n <= es.len(),
        keys_unique(es),
        forall|i: int| 0 <= i < es.len() ==> json_wf(#[trigger] es[i].1),
    ensures
        dict_from(to_host_v(JsonV::Object(es))->Dict_0, n) == Ok::<
            Seq<(Seq<char>, JsonV)>,
            BridgeError,
        >(es.take(n as int)),
    decreases es, n,
{
    let hs = to_host_v(JsonV::Object(es))->Dict_0;
    if n > 0 {
        let m = n - 1;
        lemma_dict_round_trip(es, m as nat);
        lemma_round_trip(es[m].1);
        assert(hs[m] == (HostV::Str(es[m].0), to_host_v(es[m].1)));
        let p = es.take(m);
        if has_key(p, es[m].0) {
            let j = choose|j: int| 0 <= j < p.len() && p[j].0 == es[m].0;
            assert(es[j].0 == es[m].0);
        }
        assert(p.push((es[m].0, es[m].1)) =~= es.take(n as int));
    } else {
        assert(es.take(0) =~= Seq::<(Seq<char>, JsonV)>::empty());
    }
}

/// Rejection: a host object of a type with no dynamic-value shape fails to
/// convert with `UnsupportedType`, whatever its type is.
pub proof fn lemma_unsupported_rejected(kind: Seq<char>)
    ensures
        from_host_v(HostV::Other(kind)) == Err::<JsonV, BridgeError>(
            BridgeError::UnsupportedType,
        ),
{
}

} // verus!
