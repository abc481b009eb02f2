//! Storage of variables.

use vstd::prelude::*;
use crate::lookup;
use crate::value::{FrameId, SymbolKey, Val, VmValue};

verus! {

/// The contents of an array.
#[derive(PartialEq, Eq, Debug)]
pub enum CellData {
    Integers(Vec<i64>),
    Strings(Vec<String>),
}

/// One variable: an array in row-major order.
#[derive(PartialEq, Eq, Debug)]
pub struct VariableCell {
    pub dimensions: Vec<u64>,
    pub data: CellData,
}

/// Mathematical content of [`CellData`].
#[verifier::ext_equal]
pub enum Data {
    Integers(Seq<i64>),
    Texts(Seq<Seq<char>>),
}

/// Mathematical content of a [`VariableCell`].
#[verifier::ext_equal]
pub struct Cell {
    pub dimensions: Seq<u64>,
    pub data: Data,
}

/// Mathematical content of a list of texts.
pub open spec fn texts(s: Seq<String>) -> Seq<Seq<char>> {
    s.map_values(|t: String| t@)
}

impl View for CellData {
    type V = Data;

    open spec fn view(&self) -> Data {
        match self {
            CellData::Integers(v) => Data::Integers(v@),
            CellData::Strings(v) => Data::Texts(texts(v@)),
        }
    }
}

impl View for VariableCell {
    type V = Cell;

    open spec fn view(&self) -> Cell {
        Cell { dimensions: self.dimensions@, data: self.data@ }
    }
}

impl Data {
    pub open spec fn len(self) -> nat {
        match self {
            Data::Integers(s) => s.len(),
            Data::Texts(s) => s.len(),
        }
    }

    /// The value at a position.
    pub open spec fn get(self, i: int) -> Val {
        match self {
            Data::Integers(s) => Val::Integer(s[i]),
            Data::Texts(s) => Val::Text(s[i]),
        }
    }

    /// All values in order.
    pub open spec fn all(self) -> Seq<Val> {
        Seq::new(self.len(), |i: int| self.get(i))
    }

    /// The data with one value replaced, if the types agree.
    pub open spec fn with(self, i: int, value: Val) -> Option<Data> {
        match (self, value) {
            (Data::Integers(s), Val::Integer(n)) => Some(Data::Integers(s.update(i, n))),
            (Data::Texts(s), Val::Text(t)) => Some(Data::Texts(s.update(i, t))),
            _ => None,
        }
    }
}

/// The index in dimension `k`; an index that is left out is zero.
pub open spec fn index_at(indices: Seq<u64>, k: int) -> int {
    if k < indices.len() {
        indices[k] as int
    } else {
        0
    }
}

/// Row-major offset over the first `n` dimensions.
pub open spec fn row_major(dimensions: Seq<u64>, indices: Seq<u64>, n: nat) -> int
    decreases n,
{
    if n == 0 {
        0
    } else {
        row_major(dimensions, indices, (n - 1) as nat) * dimensions[n - 1] + index_at(
            indices,
            n - 1,
        )
    }
}

/// Every index lies inside its dimension.
pub open spec fn in_range(dimensions: Seq<u64>, indices: Seq<u64>) -> bool {
    &&& indices.len() <= dimensions.len()
    &&& forall|k: int| 0 <= k < dimensions.len() ==> index_at(indices, k) < #[trigger] dimensions[k]
}

impl Cell {
    /// The position that a list of indices names.
    pub open spec fn position(self, indices: Seq<u64>) -> Option<int> {
        if in_range(self.dimensions, indices) && row_major(
            self.dimensions,
            indices,
            self.dimensions.len(),
        ) < self.data.len() {
            Some(row_major(self.dimensions, indices, self.dimensions.len()))
        } else {
            None
        }
    }

    /// What reading gives.
    pub open spec fn read(self, indices: Seq<u64>) -> Result<Val, Seq<char>> {
        match self.position(indices) {
            Some(i) => Ok(self.data.get(i)),
            None => Err("variable index is out of range"@),
        }
    }

    /// What writing leaves.
    pub open spec fn write(self, indices: Seq<u64>, value: Val) -> Result<Cell, Seq<char>> {
        match self.position(indices) {
            Some(i) => match self.data.with(i, value) {
                Some(data) => Ok(Cell { dimensions: self.dimensions, data }),
                None => Err("variable value type differs"@),
            },
            None => Err("variable index is out of range"@),
        }
    }

    /// The first value, if the array is not empty.
    pub open spec fn first(self) -> Option<Val> {
        if self.data.len() > 0 {
            Some(self.data.get(0))
        } else {
            None
        }
    }

    /// What storing at a flat position leaves.
    pub open spec fn set(self, i: int, value: Val) -> Result<Cell, Seq<char>> {
        if i < self.data.len() {
            match self.data.with(i, value) {
                Some(data) => Ok(Cell { dimensions: self.dimensions, data }),
                None => Err("variable value type differs"@),
            }
        } else {
            Err("variable index is out of range"@)
        }
    }
}

/// Offsets only grow from dimension to dimension while the indices are in range.
pub proof fn lemma_row_major_grows(dimensions: Seq<u64>, indices: Seq<u64>, k: nat, n: nat)
    requires
        k <= n <= dimensions.len(),
        forall|j: int| 0 <= j < n ==> index_at(indices, j) < #[trigger] dimensions[j],
    ensures
        0 <= row_major(dimensions, indices, k) <= row_major(dimensions, indices, n),
    decreases n,
{
    if n == 0 {
    } else if k < n {
        lemma_row_major_grows(dimensions, indices, k, (n - 1) as nat);
        let h = row_major(dimensions, indices, (n - 1) as nat);
        let d = dimensions[n - 1] as int;
        let i = index_at(indices, n - 1);
        assert(i < d);
        assert(h * d + i >= h) by (nonlinear_arith)
            requires
                h >= 0,
                d >= 1,
                i >= 0,
        ;
    } else {
        lemma_row_major_grows(dimensions, indices, (k - 1) as nat, (n - 1) as nat);
        let h = row_major(dimensions, indices, (n - 1) as nat);
        let d = dimensions[n - 1] as int;
        let i = index_at(indices, n - 1);
        assert(i < d);
        assert(h * d + i >= 0) by (nonlinear_arith)
            requires
                h >= 0,
                d >= 1,
                i >= 0,
        ;
    }
}

/// Row-major offset of a list of indices, where it is in range and fits the machine.
fn offset_of(dimensions: &Vec<u64>, indices: &[u64]) -> (r: Option<usize>)
    ensures
        match r {
            Some(o) => in_range(dimensions@, indices@) && o == row_major(
                dimensions@,
                indices@,
                dimensions@.len(),
            ),
            None => in_range(dimensions@, indices@) ==> row_major(
                dimensions@,
                indices@,
                dimensions@.len(),
            ) > usize::MAX,
        },
{
    if indices.len() > dimensions.len() {
        return None;
    }
    let mut k: usize = 0;
    let mut offset: usize = 0;
    while k < dimensions.len()
        invariant
            k <= dimensions.len(),
            indices@.len() <= dimensions@.len(),
            forall|j: int| 0 <= j < k ==> index_at(indices@, j) < #[trigger] dimensions@[j],
            offset == row_major(dimensions@, indices@, k as nat),
        decreases dimensions.len() - k,
    {
        let index: u64 = if k < indices.len() {
            indices[k]
        } else {
            0
        };
        let length: u64 = dimensions[k];
        assert(index == index_at(indices@, k as int));
        if index >= length {
            assert(index_at(indices@, k as int) >= dimensions@[k as int]);
            return None;
        }
        assert(0 <= (offset as int) * (length as int) && (offset as int) * (length as int) + index
            <= u128::MAX) by (nonlinear_arith)
            requires
                0 <= offset <= u64::MAX,
                0 <= length <= u64::MAX,
                0 <= index <= u64::MAX,
        ;
        let wide: u128 = (offset as u128) * (length as u128) + (index as u128);
        if wide > usize::MAX as u128 {
            proof {
                if in_range(dimensions@, indices@) {
                    lemma_row_major_grows(
                        dimensions@,
                        indices@,
                        (k + 1) as nat,
                        dimensions@.len(),
                    );
                }
            }
            return None;
        }
        offset = wide as usize;
        k = k + 1;
    }
    Some(offset)
}

/// A copy of a list of texts.
pub fn copy_texts(v: &Vec<String>) -> (r: Vec<String>)
    ensures
        texts(r@) == texts(v@),
{
    let mut out: Vec<String> = Vec::new();
    let mut i: usize = 0;
    while i < v.len()
        invariant
            i <= v.len(),
            out@.len() == i,
            forall|j: int| 0 <= j < i ==> (#[trigger] out@[j])@ == v@[j]@,
        decreases v.len() - i,
    {
        out.push(v[i].clone());
        i = i + 1;
    }
    assert(texts(out@) =~= texts(v@));
    out
}

/// A copy of a list of integers.
pub fn copy_integers(v: &Vec<i64>) -> (r: Vec<i64>)
    ensures
        r@ == v@,
{
    let mut out: Vec<i64> = Vec::new();
    let mut i: usize = 0;
    while i < v.len()
        invariant
            i <= v.len(),
            out@ == v@.take(i as int),
        decreases v.len() - i,
    {
        out.push(v[i]);
        i = i + 1;
        assert(out@ =~= v@.take(i as int));
    }
    assert(out@ =~= v@);
    out
}

impl Clone for VariableCell {
    fn clone(&self) -> (r: VariableCell)
        ensures
            r@ == self@,
    {
        let data = match &self.data {
            CellData::Integers(v) => CellData::Integers(copy_integers(v)),
            CellData::Strings(v) => CellData::Strings(copy_texts(v)),
        };
        VariableCell { dimensions: crate::value::copy_indices(&self.dimensions), data }
    }
}

impl VariableCell {
    pub fn len(&self) -> (r: usize)
        ensures
            r == self@.data.len(),
    {
        match &self.data {
            CellData::Integers(v) => v.len(),
            CellData::Strings(v) => v.len(),
        }
    }

    /// The value at a flat position.
    pub fn get(&self, i: usize) -> (r: VmValue)
        requires
            i < self@.data.len(),
        ensures
            r@ == self@.data.get(i as int),
    {
        match &self.data {
            CellData::Integers(v) => VmValue::Integer(v[i]),
            CellData::Strings(v) => VmValue::String(v[i].clone()),
        }
    }

    /// The first value, if the array is not empty.
    pub fn first(&self) -> (r: Option<VmValue>)
        ensures
            match r {
                Some(v) => self@.first() == Some(v@),
                None => self@.first() is None,
            },
    {
        if self.len() > 0 {
            Some(self.get(0))
        } else {
            None
        }
    }

    /// Reads the value that a list of indices names.
    pub fn read(&self, indices: &[u64]) -> (r: Result<VmValue, String>)
        ensures
            match r {
                Ok(v) => self@.read(indices@) == Ok::<Val, Seq<char>>(v@),
                Err(m) => self@.read(indices@) == Err::<Val, Seq<char>>(m@),
            },
    {
        let n: usize = self.len();
        match offset_of(&self.dimensions, indices) {
            Some(o) => {
                if o < n {
                    Ok(self.get(o))
                } else {
                    Err("variable index is out of range".to_owned())
                }
            },
            None => Err("variable index is out of range".to_owned()),
        }
    }

    /// Stores a value at a flat position.
    pub fn set(&mut self, i: usize, value: VmValue) -> (r: Result<(), String>)
        ensures
            match r {
                Ok(_) => old(self)@.set(i as int, value@) == Ok::<Cell, Seq<char>>(final(self)@),
                Err(m) => old(self)@.set(i as int, value@) == Err::<Cell, Seq<char>>(m@)
                    && *final(self) == *old(self),
            },
    {
        if i >= self.len() {
            return Err("variable index is out of range".to_owned());
        }
        match (&mut self.data, value) {
            (CellData::Integers(v), VmValue::Integer(n)) => {
                v[i] = n;
                Ok(())
            },
            (CellData::Strings(v), VmValue::String(t)) => {
                let ghost before = v@;
                let ghost added = t;
                v[i] = t;
                assert(texts(v@) =~= texts(before).update(i as int, added@));
                Ok(())
            },
            _ => Err("variable value type differs".to_owned()),
        }
    }

    /// Writes the value that a list of indices names.
    pub fn write(&mut self, indices: &[u64], value: VmValue) -> (r: Result<(), String>)
        ensures
            match r {
                Ok(_) => old(self)@.write(indices@, value@) == Ok::<Cell, Seq<char>>(final(self)@),
                Err(m) => old(self)@.write(indices@, value@) == Err::<Cell, Seq<char>>(m@)
                    && *final(self) == *old(self),
            },
    {
        let n: usize = self.len();
        match offset_of(&self.dimensions, indices) {
            Some(o) => self.set(o, value),
            None => Err("variable index is out of range".to_owned()),
        }
    }

    /// All values in row-major order.
    pub fn values(&self) -> (r: Vec<VmValue>)
        ensures
            crate::value::vals(r@) == self@.data.all(),
    {
        let mut out: Vec<VmValue> = Vec::new();
        let n: usize = self.len();
        let mut i: usize = 0;
        while i < n
            invariant
                i <= n,
                n == self@.data.len(),
                out@.len() == i,
                forall|j: int| 0 <= j < i ==> (#[trigger] out@[j])@ == self@.data.get(j),
            decreases n - i,
        {
            out.push(self.get(i));
            i = i + 1;
        }
        assert(crate::value::vals(out@) =~= self@.data.all());
        out
    }
}

/// A variable under its key.
#[derive(PartialEq, Eq, Debug)]
pub struct CellEntry {
    pub key: SymbolKey,
    pub cell: VariableCell,
}

/// Variables by key.
#[derive(PartialEq, Eq, Debug)]
pub struct CellMap {
    pub entries: Vec<CellEntry>,
}

/// Mathematical content of a [`CellMap`].
pub type Cells = Seq<(SymbolKey, Cell)>;

pub open spec fn entry_views(s: Seq<CellEntry>) -> Cells {
    s.map_values(|e: CellEntry| (e.key, e.cell@))
}

impl View for CellMap {
    type V = Cells;

    open spec fn view(&self) -> Cells {
        entry_views(self.entries@)
    }
}

/// Stands under a key.
pub open spec fn has_key(key: SymbolKey) -> spec_fn((SymbolKey, Cell)) -> bool {
    |e: (SymbolKey, Cell)| e.0 == key
}

/// Where a key stands in a list of variables.
pub open spec fn slot_of(cells: Cells, key: SymbolKey) -> Option<int> {
    lookup::first_index(cells, has_key(key))
}

/// The variable under a key.
pub open spec fn cell_of(cells: Cells, key: SymbolKey) -> Option<Cell> {
    match slot_of(cells, key) {
        Some(i) => Some(cells[i].1),
        None => None,
    }
}

/// A list of variables with the one at `i` replaced.
pub open spec fn with_cell(cells: Cells, i: int, cell: Cell) -> Cells {
    cells.update(i, (cells[i].0, cell))
}

pub proof fn lemma_entry_update(s: Seq<CellEntry>, i: int, e: CellEntry)
    requires
        0 <= i < s.len(),
        e.key == s[i].key,
    ensures
        entry_views(s.update(i, e)) == with_cell(entry_views(s), i, e.cell@),
{
    assert(entry_views(s.update(i, e)) =~= with_cell(entry_views(s), i, e.cell@));
}

impl Clone for CellMap {
    fn clone(&self) -> (r: CellMap)
        ensures
            r@ == self@,
    {
        let mut out: Vec<CellEntry> = Vec::new();
        let mut i: usize = 0;
        while i < self.entries.len()
            invariant
                i <= self.entries.len(),
                out@.len() == i,
                forall|j: int|
                    0 <= j < i ==> (#[trigger] out@[j]).key == self.entries@[j].key && out@[j].cell@
                        == self.entries@[j].cell@,
            decreases self.entries.len() - i,
        {
            out.push(
                CellEntry { key: self.entries[i].key, cell: self.entries[i].cell.clone() },
            );
            i = i + 1;
        }
        assert(entry_views(out@) =~= self@);
        CellMap { entries: out }
    }
}

impl CellMap {
    pub fn new() -> (r: CellMap)
        ensures
            r@ == Cells::empty(),
    {
        let r = CellMap { entries: Vec::new() };
        assert(r@ =~= Cells::empty());
        r
    }

    /// Where a key stands.
    pub fn find(&self, key: SymbolKey) -> (r: Option<usize>)
        ensures
            match r {
                Some(i) => i < self@.len() && slot_of(self@, key) == Some(i as int),
                None => slot_of(self@, key) is None,
            },
    {
        let ghost p = has_key(key);
        let mut i: usize = 0;
        while i < self.entries.len()
            invariant
                i <= self.entries.len(),
                p == has_key(key),
                forall|j: int| 0 <= j < i ==> !p(#[trigger] self@[j]),
            decreases self.entries.len() - i,
        {
            if self.entries[i].key == key {
                proof {
                    lookup::lemma_first_found(self@, p, i as int);
                }
                return Some(i);
            }
            i = i + 1;
        }
        proof {
            lookup::lemma_first_none(self@, p);
        }
        None
    }

    /// The variable under a key.
    pub fn get(&self, key: SymbolKey) -> (r: Option<&VariableCell>)
        ensures
            match r {
                Some(c) => cell_of(self@, key) == Some(c@),
                None => cell_of(self@, key) is None,
            },
    {
        match self.find(key) {
            Some(i) => Some(&self.entries[i].cell),
            None => None,
        }
    }

    /// Adds a variable behind the others.
    pub fn push(&mut self, key: SymbolKey, cell: VariableCell)
        ensures
            final(self)@ == old(self)@.push((key, cell@)),
    {
        self.entries.push(CellEntry { key, cell });
        assert(self@ =~= old(self)@.push((key, cell@)));
    }
}

/// Where an array stands.
#[derive(Clone, Copy, PartialEq, Eq, Debug, Structural)]
pub struct CellAddress {
    pub storage: BytecodeStorage,
    pub key: SymbolKey,
    pub character: Option<u64>,
    pub frame: Option<FrameId>,
}

/// Which store a variable lives in.
#[derive(Clone, Copy, PartialEq, Eq, Debug, Structural)]
pub enum BytecodeStorage {
    Project,
    Character,
    FunctionLocal,
    FunctionStatic,
    Calculated,
}

} // verus!
