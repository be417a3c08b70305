//! Plain-value model of the SNMP variable bindings the agent exchanges,
//! with the object-identifier helpers the bulk walk needs.

use vstd::prelude::*;

use crate::text::push_char;
use crate::text::push_decimal_u64;
use crate::text::push_decimal_i64;
use crate::text::spec_digits;
use crate::text::spec_decimal;
use crate::text::utf8_lossy;
use crate::text::lossy_utf8_of;

verus! {

/// The SNMP values the agent interprets. Every other wire type is
/// carried as `Other` and is treated as "not numeric" downstream.
#[derive(Clone, Debug, PartialEq, Eq)]
pub enum VarValue {
    Int(i32),
    Str(Vec<u8>),
    ObjectId(Vec<u64>),
    Counter(u32),
    UnsignedInt(u32),
    BigCounter(u64),
    NoSuchInstance,
    EndOfMibView,
    Other,
}

/// Mathematical image of a `VarValue`.
pub enum VarValueView {
    Int(i32),
    Str(Seq<u8>),
    ObjectId(Seq<u64>),
    Counter(u32),
    UnsignedInt(u32),
    BigCounter(u64),
    NoSuchInstance,
    EndOfMibView,
    Other,
}

impl View for VarValue {
    type V = VarValueView;

    open spec fn view(&self) -> VarValueView {
        match self {
            VarValue::Int(i) => VarValueView::Int(*i),
            VarValue::Str(s) => VarValueView::Str(s@),
            VarValue::ObjectId(o) => VarValueView::ObjectId(o@),
            VarValue::Counter(c) => VarValueView::Counter(*c),
            VarValue::UnsignedInt(u) => VarValueView::UnsignedInt(*u),
            VarValue::BigCounter(b) => VarValueView::BigCounter(*b),
            VarValue::NoSuchInstance => VarValueView::NoSuchInstance,
            VarValue::EndOfMibView => VarValueView::EndOfMibView,
            VarValue::Other => VarValueView::Other,
        }
    }
}

/// One variable binding: a numeric object identifier and a value.
#[derive(Clone, Debug, PartialEq, Eq)]
pub struct VarBind {
    pub name: Vec<u64>,
    pub value: VarValue,
}

/// Mathematical image of a `VarBind`.
pub struct VarBindView {
    pub name: Seq<u64>,
    pub value: VarValueView,
}

impl View for VarBind {
    type V = VarBindView;

    open spec fn view(&self) -> VarBindView {
        VarBindView { name: self.name@, value: self.value@ }
    }
}

impl VarValue {
    /// A copy whose mathematical image is the same.
    pub fn duplicate(&self) -> (r: VarValue)
        ensures
            r@ == self@,
    {
        match self {
            VarValue::Int(i) => VarValue::Int(*i),
            VarValue::Str(s) => VarValue::Str(s.clone()),
            VarValue::ObjectId(o) => VarValue::ObjectId(o.clone()),
            VarValue::Counter(c) => VarValue::Counter(*c),
            VarValue::UnsignedInt(u) => VarValue::UnsignedInt(*u),
            VarValue::BigCounter(b) => VarValue::BigCounter(*b),
            VarValue::NoSuchInstance => VarValue::NoSuchInstance,
            VarValue::EndOfMibView => VarValue::EndOfMibView,
            VarValue::Other => VarValue::Other,
        }
    }
}

impl VarBind {
    /// A copy whose mathematical image is the same.
    pub fn duplicate(&self) -> (r: VarBind)
        ensures
            r@ == self@,
    {
        VarBind { name: self.name.clone(), value: self.value.duplicate() }
    }
}

/// A binding paired with the wall-clock second it was received at.
#[derive(Clone, Debug)]
pub struct TimedBind {
    pub timestamp: u64,
    pub bind: VarBind,
}

/// Mathematical image of a `TimedBind`.
pub struct TimedBindView {
    pub timestamp: u64,
    pub bind: VarBindView,
}

impl View for TimedBind {
    type V = TimedBindView;

    open spec fn view(&self) -> TimedBindView {
        TimedBindView { timestamp: self.timestamp, bind: self.bind@ }
    }
}

/// Wraps a numeric OID as a value-less binding, ready for a request.
pub fn vec_to_var_binds(v: Vec<u64>) -> (r: VarBind)
    ensures
        r@.name == v@,
        r@.value == VarValueView::Other,
{
    VarBind { name: v, value: VarValue::Other }
}

/// `o` with its last sub-identifier incremented (wrapping), the
/// exclusive upper bound of the subtree rooted at `o`.
pub open spec fn next_sibling_of(o: Seq<u64>) -> Seq<u64>
    recommends
        o.len() > 0,
{
    o.update(o.len() - 1, if o.last() == u64::MAX { 0u64 } else { (o.last() + 1) as u64 })
}

/// Increments the last sub-identifier, wrapping, as the walk's
/// termination marker.
pub fn next_sibling(oid: &Vec<u64>) -> (r: Vec<u64>)
    requires
        oid@.len() > 0,
    ensures
        r@ == next_sibling_of(oid@),
{
    let mut out = oid.clone();
    let last_index = out.len() - 1;
    let last = out[last_index];
    let bumped: u64 = if last == u64::MAX { 0 } else { last + 1 };
    out.set(last_index, bumped);
    out
}

/// Strict lexicographic order on numeric OIDs: a proper prefix comes
/// first, otherwise the first differing sub-identifier decides.
pub open spec fn oid_lt(a: Seq<u64>, b: Seq<u64>) -> bool
    decreases a.len(),
{
    if b.len() == 0 {
        false
    } else if a.len() == 0 {
        true
    } else if a.first() != b.first() {
        a.first() < b.first()
    } else {
        oid_lt(a.drop_first(), b.drop_first())
    }
}

/// Decides `oid_lt(a@, b@)`.
pub fn oid_less(a: &Vec<u64>, b: &Vec<u64>) -> (r: bool)
    ensures
        r == oid_lt(a@, b@),
{
    let mut i: usize = 0;
    proof {
        assert(a@.skip(0) =~= a@);
        assert(b@.skip(0) =~= b@);
    }
    loop
        invariant
            i <= a.len(),
            i <= b.len(),
            forall|j: int| 0 <= j < i ==> a@[j] == b@[j],
            oid_lt(a@, b@) == oid_lt(a@.skip(i as int), b@.skip(i as int)),
        decreases a.len() - i,
    {
        if i == b.len() {
            return false;
        }
        if i == a.len() {
            return true;
        }
        let x = a[i];
        let y = b[i];
        if x != y {
            proof {
                assert(a@.skip(i as int).first() == x);
                assert(b@.skip(i as int).first() == y);
            }
            return x < y;
        }
        proof {
            assert(a@.skip(i as int).first() == b@.skip(i as int).first());
            assert(a@.skip(i as int).drop_first() =~= a@.skip(i + 1));
            assert(b@.skip(i as int).drop_first() =~= b@.skip(i + 1));
        }
        i += 1;
    }
}

/// The views of a sequence of bindings.
pub open spec fn binds_view(s: Seq<VarBind>) -> Seq<VarBindView> {
    s.map_values(|b: VarBind| b@)
}

/// A response binding ends a bulk walk when its OID has left the walked
/// subtree (it is lexicographically at or past the end marker) or it
/// carries `EndOfMibView`.
pub open spec fn walk_stops(end: Seq<u64>, b: VarBindView) -> bool {
    !oid_lt(b.name, end) || b.value is EndOfMibView
}

/// The part of one response batch that belongs to the walk: the longest
/// prefix in which no binding ends it.
pub open spec fn spec_walk_prefix(end: Seq<u64>, binds: Seq<VarBindView>) -> Seq<VarBindView>
    decreases binds.len(),
{
    if binds.len() == 0 {
        Seq::empty()
    } else if walk_stops(end, binds.first()) {
        Seq::empty()
    } else {
        seq![binds.first()] + spec_walk_prefix(end, binds.drop_first())
    }
}

/// One step of the bulk walk: keeps the bindings of this response that
/// belong to the walk and, when nothing ended it, names the OID the next
/// request starts from. A `None` second component means the walk is done.
pub fn process_bulk_batch(end: &Vec<u64>, binds: &Vec<VarBind>) -> (r: (
    Vec<VarBind>,
    Option<Vec<u64>>,
))
    ensures
        binds_view(r.0@) == spec_walk_prefix(end@, binds_view(binds@)),
        match r.1 {
            Some(n) => r.0@.len() == binds@.len() && binds@.len() > 0 && n@ == binds@.last()@.name,
            None => binds@.len() == 0 || r.0@.len() < binds@.len(),
        },
{
    let ghost all = binds_view(binds@);
    let mut kept: Vec<VarBind> = Vec::new();
    let mut i: usize = 0;
    proof {
        assert(all.skip(0) =~= all);
        assert(binds_view(kept@) =~= Seq::<VarBindView>::empty());
    }
    while i < binds.len()
        invariant
            i <= binds.len(),
            all == binds_view(binds@),
            all.len() == binds@.len(),
            kept@.len() == i,
            spec_walk_prefix(end@, all) == binds_view(kept@) + spec_walk_prefix(
                end@,
                all.skip(i as int),
            ),
        decreases binds.len() - i,
    {
        let stop_here = !oid_less(&binds[i].name, end) || matches!(
            binds[i].value,
            VarValue::EndOfMibView,
        );
        proof {
            assert(all.skip(i as int).first() == binds@[i as int]@);
        }
        if stop_here {
            proof {
                assert(spec_walk_prefix(end@, all.skip(i as int)) =~= Seq::<VarBindView>::empty());
                assert(binds_view(kept@) + Seq::<VarBindView>::empty() =~= binds_view(kept@));
            }
            return (kept, None);
        }
        kept.push(binds[i].duplicate());
        proof {
            assert(all.skip(i as int).drop_first() =~= all.skip(i + 1));
            assert(binds_view(kept@) =~= binds_view(kept@.drop_last()) + seq![binds@[i as int]@]);
            assert(binds_view(kept@) + spec_walk_prefix(end@, all.skip(i + 1))
                =~= binds_view(kept@.drop_last()) + spec_walk_prefix(end@, all.skip(i as int)));
        }
        i += 1;
    }
    proof {
        assert(all.skip(binds@.len() as int) =~= Seq::<VarBindView>::empty());
        assert(binds_view(kept@) + Seq::<VarBindView>::empty() =~= binds_view(kept@));
    }
    if binds.len() == 0 {
        (kept, None)
    } else {
        let next = binds[binds.len() - 1].name.clone();
        (kept, Some(next))
    }
}

/// Decimal form of a value, used as the row key in a metric name:
/// integers in base ten, bytes decoded as UTF-8 (lossily), object
/// identifiers dotted; anything else has no string form.
pub open spec fn spec_value_string(v: VarValueView) -> Option<Seq<char>> {
    match v {
        VarValueView::Int(i) => Some(spec_decimal(i as int)),
        VarValueView::Str(s) => Some(lossy_utf8_of(s)),
        VarValueView::ObjectId(o) => Some(spec_dotted(o)),
        VarValueView::Counter(c) => Some(spec_digits(c as nat)),
        VarValueView::UnsignedInt(u) => Some(spec_digits(u as nat)),
        VarValueView::BigCounter(b) => Some(spec_digits(b as nat)),
        _ => None,
    }
}

/// Dotted rendering of a numeric OID (`1.3.6.1`).
pub open spec fn spec_dotted(o: Seq<u64>) -> Seq<char>
    decreases o.len(),
{
    if o.len() == 0 {
        Seq::empty()
    } else if o.len() == 1 {
        spec_digits(o.last() as nat)
    } else {
        spec_dotted(o.drop_last()) + seq!['.'] + spec_digits(o.last() as nat)
    }
}

fn push_dotted(s: &mut String, o: &Vec<u64>)
    ensures
        final(s)@ == old(s)@ + spec_dotted(o@),
{
    let mut i: usize = 0;
    while i < o.len()
        invariant
            i <= o.len(),
            s@ == old(s)@ + spec_dotted(o@.subrange(0, i as int)),
        decreases o.len() - i,
    {
        if i > 0 {
            push_char(s, '.');
        }
        push_decimal_u64(s, o[i]);
        proof {
            let pre = o@.subrange(0, i as int);
            let cur = o@.subrange(0, i + 1 as int);
            assert(cur.drop_last() =~= pre);
            assert(cur.last() == o@[i as int]);
            assert(s@ =~= old(s)@ + spec_dotted(cur));
        }
        i += 1;
    }
    proof {
        assert(o@.subrange(0, o@.len() as int) =~= o@);
    }
}

/// String form of a value for the metric key, exactly when the value
/// has one.
pub fn var_numeric_value_to_string(var_value: &VarValue) -> (r: Option<String>)
    ensures
        match spec_value_string(var_value@) {
            Some(s) => r is Some && r->0@ == s,
            None => r is None,
        },
{
    match var_value {
        VarValue::Int(i) => {
            let mut s = String::new();
            push_decimal_i64(&mut s, *i as i64);
            proof {
                assert(Seq::<char>::empty() + spec_decimal(*i as int) =~= spec_decimal(*i as int));
            }
            Some(s)
        },
        VarValue::Str(bytes) => Some(utf8_lossy(bytes)),
        VarValue::ObjectId(o) => {
            let mut s = String::new();
            push_dotted(&mut s, o);
            proof {
                assert(Seq::<char>::empty() + spec_dotted(o@) =~= spec_dotted(o@));
            }
            Some(s)
        },
        VarValue::Counter(c) => {
            let mut s = String::new();
            push_decimal_u64(&mut s, *c as u64);
            proof {
                assert(Seq::<char>::empty() + spec_digits(*c as nat) =~= spec_digits(*c as nat));
            }
            Some(s)
        },
        VarValue::UnsignedInt(u) => {
            let mut s = String::new();
            push_decimal_u64(&mut s, *u as u64);
            proof {
                assert(Seq::<char>::empty() + spec_digits(*u as nat) =~= spec_digits(*u as nat));
            }
            Some(s)
        },
        VarValue::BigCounter(b) => {
            let mut s = String::new();
            push_decimal_u64(&mut s, *b);
            proof {
                assert(Seq::<char>::empty() + spec_digits(*b as nat) =~= spec_digits(*b as nat));
            }
            Some(s)
        },
        _ => None,
    }
}

/// Decides equality of two numeric OIDs.
pub fn oid_eq(a: &Vec<u64>, b: &Vec<u64>) -> (r: bool)
    ensures
        r == (a@ == b@),
{
    if a.len() != b.len() {
        return false;
    }
    let mut i: usize = 0;
    while i < a.len()
        invariant
            i <= a.len(),
            a@.len() == b@.len(),
            forall|j: int| 0 <= j < i ==> a@[j] == b@[j],
        decreases a.len() - i,
    {
        if a[i] != b[i] {
            return false;
        }
        i += 1;
    }
    proof {
        assert(a@ =~= b@);
    }
    true
}

fn bytes_eq(a: &Vec<u8>, b: &Vec<u8>) -> (r: bool)
    ensures
        r == (a@ == b@),
{
    if a.len() != b.len() {
        return false;
    }
    let mut i: usize = 0;
    while i < a.len()
        invariant
            i <= a.len(),
            a@.len() == b@.len(),
            forall|j: int| 0 <= j < i ==> a@[j] == b@[j],
        decreases a.len() - i,
    {
        if a[i] != b[i] {
            return false;
        }
        i += 1;
    }
    proof {
        assert(a@ =~= b@);
    }
    true
}

impl VarValue {
    /// Decides equality of the mathematical images of two values.
    pub fn view_equal(&self, other: &VarValue) -> (r: bool)
        ensures
            r == (self@ == other@),
    {
        match (self, other) {
            (VarValue::Int(a), VarValue::Int(b)) => *a == *b,
            (VarValue::Str(a), VarValue::Str(b)) => bytes_eq(a, b),
            (VarValue::ObjectId(a), VarValue::ObjectId(b)) => oid_eq(a, b),
            (VarValue::Counter(a), VarValue::Counter(b)) => *a == *b,
            (VarValue::UnsignedInt(a), VarValue::UnsignedInt(b)) => *a == *b,
            (VarValue::BigCounter(a), VarValue::BigCounter(b)) => *a == *b,
            (VarValue::NoSuchInstance, VarValue::NoSuchInstance) => true,
            (VarValue::EndOfMibView, VarValue::EndOfMibView) => true,
            (VarValue::Other, VarValue::Other) => true,
            _ => false,
        }
    }
}

impl VarBind {
    /// Decides equality of the mathematical images of two bindings.
    pub fn view_equal(&self, other: &VarBind) -> (r: bool)
        ensures
            r == (self@ == other@),
    {
        oid_eq(&self.name, &other.name) && self.value.view_equal(&other.value)
    }
}

/// The signed 128-bit reading of a numeric value, exactly for the four
/// integer-typed variants.
pub open spec fn spec_numeric(v: VarValueView) -> Option<i128> {
    match v {
        VarValueView::Int(i) => Some(i as i128),
        VarValueView::Counter(c) => Some(c as i128),
        VarValueView::UnsignedInt(u) => Some(u as i128),
        VarValueView::BigCounter(b) => Some(b as i128),
        _ => None,
    }
}

/// Numeric reading of a binding's value, exactly when it is one of the
/// integer-typed variants.
pub fn var_bind_to_i128(v: VarBind) -> (r: Option<i128>)
    ensures
        r == spec_numeric(v@.value),
{
    match v.value {
        VarValue::Counter(value) => Some(value as i128),
        VarValue::UnsignedInt(value) => Some(value as i128),
        VarValue::BigCounter(value) => Some(value as i128),
        VarValue::Int(value) => Some(value as i128),
        _ => None,
    }
}

/// The decimal rendering of a numeric value, exactly for the four
/// integer-typed variants.
pub fn numeric_to_decimal(v: &VarValue) -> (r: Option<String>)
    ensures
        match spec_numeric(v@) {
            Some(n) => r is Some && r->0@ == spec_decimal(n as int),
            None => r is None,
        },
{
    match v {
        VarValue::Int(i) => {
            let mut s = String::new();
            push_decimal_i64(&mut s, *i as i64);
            proof {
                assert(Seq::<char>::empty() + spec_decimal(*i as int) =~= spec_decimal(*i as int));
            }
            Some(s)
        },
        VarValue::Counter(c) => {
            let mut s = String::new();
            push_decimal_u64(&mut s, *c as u64);
            proof {
                assert(Seq::<char>::empty() + spec_digits(*c as nat) =~= spec_digits(*c as nat));
            }
            Some(s)
        },
        VarValue::UnsignedInt(u) => {
            let mut s = String::new();
            push_decimal_u64(&mut s, *u as u64);
            proof {
                assert(Seq::<char>::empty() + spec_digits(*u as nat) =~= spec_digits(*u as nat));
            }
            Some(s)
        },
        VarValue::BigCounter(b) => {
            let mut s = String::new();
            push_decimal_u64(&mut s, *b);
            proof {
                assert(Seq::<char>::empty() + spec_digits(*b as nat) =~= spec_digits(*b as nat));
            }
            Some(s)
        },
        _ => None,
    }
}

} // verus!
