//! Values and places.

use vstd::prelude::*;

verus! {

/// Identity of a function, variable or service of a program.
#[derive(Clone, Copy, PartialEq, Eq, Debug, Structural)]
pub struct SymbolKey(pub u128);

#[derive(Clone, Copy, PartialEq, Eq, Debug, Structural)]
pub struct GenerationId(pub u64);

#[derive(Clone, Copy, PartialEq, Eq, Debug, Structural)]
pub struct FiberId(pub u64);

#[derive(Clone, Copy, PartialEq, Eq, Debug, Structural)]
pub struct FrameId(pub u64);

#[derive(Clone, Copy, PartialEq, Eq, Debug, Structural)]
pub struct ArrayLeaseId(pub u64);

/// The static type of a value.
#[derive(Clone, Copy, PartialEq, Eq, Debug, Structural)]
pub enum BytecodeType {
    Integer,
    String,
    IntegerPlace,
    StringPlace,
}

/// Where a value is stored.
#[derive(PartialEq, Eq, Debug)]
pub struct PlaceDescriptor {
    pub backing: Option<ArrayLeaseId>,
    pub variable: SymbolKey,
    pub indices: Vec<u64>,
    pub character: Option<u64>,
    pub fiber: Option<FiberId>,
    pub frame: Option<FrameId>,
}

/// Mathematical content of a [`PlaceDescriptor`].
#[verifier::ext_equal]
pub struct Place {
    pub backing: Option<ArrayLeaseId>,
    pub variable: SymbolKey,
    pub indices: Seq<u64>,
    pub character: Option<u64>,
    pub fiber: Option<FiberId>,
    pub frame: Option<FrameId>,
}

impl View for PlaceDescriptor {
    type V = Place;

    open spec fn view(&self) -> Place {
        Place {
            backing: self.backing,
            variable: self.variable,
            indices: self.indices@,
            character: self.character,
            fiber: self.fiber,
            frame: self.frame,
        }
    }
}

/// A copy of a list of indices.
pub fn copy_indices(indices: &Vec<u64>) -> (r: Vec<u64>)
    ensures
        r@ == indices@,
{
    let mut out: Vec<u64> = Vec::new();
    let mut i: usize = 0;
    while i < indices.len()
        invariant
            i <= indices.len(),
            out@ == indices@.take(i as int),
        decreases indices.len() - i,
    {
        out.push(indices[i]);
        i = i + 1;
        assert(out@ =~= indices@.take(i as int));
    }
    assert(out@ =~= indices@);
    out
}

impl Clone for PlaceDescriptor {
    fn clone(&self) -> (r: PlaceDescriptor)
        ensures
            r@ == self@,
    {
        PlaceDescriptor {
            backing: self.backing,
            variable: self.variable,
            indices: copy_indices(&self.indices),
            character: self.character,
            fiber: self.fiber,
            frame: self.frame,
        }
    }
}

/// A value of the machine.
#[derive(PartialEq, Eq, Debug)]
pub enum VmValue {
    Integer(i64),
    String(String),
    IntegerPlace(Box<PlaceDescriptor>),
    StringPlace(Box<PlaceDescriptor>),
}

/// Mathematical content of a [`VmValue`].
#[verifier::ext_equal]
pub enum Val {
    Integer(i64),
    Text(Seq<char>),
    IntegerPlace(Place),
    StringPlace(Place),
}

impl View for VmValue {
    type V = Val;

    open spec fn view(&self) -> Val {
        match self {
            VmValue::Integer(n) => Val::Integer(*n),
            VmValue::String(s) => Val::Text(s@),
            VmValue::IntegerPlace(p) => Val::IntegerPlace(p@),
            VmValue::StringPlace(p) => Val::StringPlace(p@),
        }
    }
}

impl Val {
    /// The type of a value.
    pub open spec fn value_type(self) -> BytecodeType {
        match self {
            Val::Integer(_) => BytecodeType::Integer,
            Val::Text(_) => BytecodeType::String,
            Val::IntegerPlace(_) => BytecodeType::IntegerPlace,
            Val::StringPlace(_) => BytecodeType::StringPlace,
        }
    }
}

impl Clone for VmValue {
    fn clone(&self) -> (r: VmValue)
        ensures
            r@ == self@,
    {
        match self {
            VmValue::Integer(n) => VmValue::Integer(*n),
            VmValue::String(s) => VmValue::String(s.clone()),
            VmValue::IntegerPlace(p) => VmValue::IntegerPlace(Box::new((**p).clone())),
            VmValue::StringPlace(p) => VmValue::StringPlace(Box::new((**p).clone())),
        }
    }
}

impl VmValue {
    /// The type of this value.
    pub fn value_type(&self) -> (r: BytecodeType)
        ensures
            r == self@.value_type(),
    {
        match self {
            VmValue::Integer(_) => BytecodeType::Integer,
            VmValue::String(_) => BytecodeType::String,
            VmValue::IntegerPlace(_) => BytecodeType::IntegerPlace,
            VmValue::StringPlace(_) => BytecodeType::StringPlace,
        }
    }

    /// A text value.
    pub fn text(value: &str) -> (r: VmValue)
        ensures
            r@ == Val::Text(value@),
    {
        VmValue::String(value.to_owned())
    }
}

/// Mathematical content of a list of values.
pub open spec fn vals(s: Seq<VmValue>) -> Seq<Val> {
    s.map_values(|v: VmValue| v@)
}

pub broadcast proof fn lemma_vals_push(s: Seq<VmValue>, v: VmValue)
    ensures
        #[trigger] vals(s.push(v)) == vals(s).push(v@),
{
    assert(vals(s.push(v)) =~= vals(s).push(v@));
}

/// A copy of a list of values.
pub fn copy_values(values: &Vec<VmValue>) -> (r: Vec<VmValue>)
    ensures
        vals(r@) == vals(values@),
{
    let mut out: Vec<VmValue> = Vec::new();
    let mut i: usize = 0;
    while i < values.len()
        invariant
            i <= values.len(),
            out@.len() == i,
            forall|j: int| 0 <= j < i ==> (#[trigger] out@[j])@ == values@[j]@,
        decreases values.len() - i,
    {
        out.push(values[i].clone());
        i = i + 1;
    }
    assert(vals(out@) =~= vals(values@));
    out
}

/// Compares two lists of indices.
pub fn same_indices(a: &Vec<u64>, b: &Vec<u64>) -> (r: bool)
    ensures
        r == (a@ == b@),
{
    if a.len() != b.len() {
        return false;
    }
    let mut i: usize = 0;
    while i < a.len()
        invariant
            i <= a.len(),
            a.len() == b.len(),
            forall|j: int| 0 <= j < i ==> a@[j] == b@[j],
        decreases a.len() - i,
    {
        if a[i] != b[i] {
            assert(a@[i as int] != b@[i as int]);
            return false;
        }
        i = i + 1;
    }
    assert(a@ =~= b@);
    true
}

/// Compares two places.
pub fn same_place(a: &PlaceDescriptor, b: &PlaceDescriptor) -> (r: bool)
    ensures
        r == (a@ == b@),
{
    a.backing == b.backing && a.variable == b.variable && a.character == b.character && a.fiber
        == b.fiber && a.frame == b.frame && same_indices(&a.indices, &b.indices)
}

/// Compares two values.
pub fn same_value(a: &VmValue, b: &VmValue) -> (r: bool)
    ensures
        r == (a@ == b@),
{
    match (a, b) {
        (VmValue::Integer(x), VmValue::Integer(y)) => *x == *y,
        (VmValue::String(x), VmValue::String(y)) => crate::text::same_text(x.as_str(), y.as_str()),
        (VmValue::IntegerPlace(x), VmValue::IntegerPlace(y)) => same_place(&**x, &**y),
        (VmValue::StringPlace(x), VmValue::StringPlace(y)) => same_place(&**x, &**y),
        _ => false,
    }
}

} // verus!
