//! Reactive cells: values with a version that moves when they change.
use vstd::prelude::*;

use crate::num::{computes_exactly, Num};

verus! {

/// What a cell can hold: a switch, a number, a point, or a colour.
#[derive(Copy, Clone, Debug)]
pub enum Value<N> {
    Flag(bool),
    Scalar(N),
    Pair([N; 2]),
    Quad([N; 4]),
}

/// Equality of values: the same shape, and equal components.
pub open spec fn same_value<N: Num>(a: Value<N>, b: Value<N>) -> bool {
    match (a, b) {
        (Value::Flag(x), Value::Flag(y)) => x == y,
        (Value::Scalar(x), Value::Scalar(y)) => x.equals(y),
        (Value::Pair(x), Value::Pair(y)) => x[0].equals(y[0]) && x[1].equals(y[1]),
        (Value::Quad(x), Value::Quad(y)) => x[0].equals(y[0]) && x[1].equals(y[1]) && x[2].equals(
            y[2],
        ) && x[3].equals(y[3]),
        _ => false,
    }
}

/// Whether two values have the same shape and equal components.
pub fn value_eq<N: Num>(a: Value<N>, b: Value<N>) -> (r: bool)
    ensures
        r == same_value(a, b),
{
    match (a, b) {
        (Value::Flag(x), Value::Flag(y)) => x == y,
        (Value::Scalar(x), Value::Scalar(y)) => x.eq(y),
        (Value::Pair(x), Value::Pair(y)) => x[0].eq(y[0]) && x[1].eq(y[1]),
        (Value::Quad(x), Value::Quad(y)) => x[0].eq(y[0]) && x[1].eq(y[1]) && x[2].eq(y[2])
            && x[3].eq(y[3]),
        _ => false,
    }
}

/// A cell of a [`Signals`] store.
#[derive(Copy, Clone, Debug, PartialEq, Eq, Structural)]
pub struct SignalId {
    pub index: usize,
}

/// A value and the number of times it has changed.
#[derive(Copy, Clone, Debug)]
pub struct Cell<N> {
    pub value: Value<N>,
    pub version: u64,
}

/// What a cell holds after `v` is written to it: writing an equal value
/// leaves it alone, anything else replaces the value and moves the version.
pub open spec fn written<N: Num>(c: Cell<N>, v: Value<N>) -> Cell<N> {
    if same_value(c.value, v) {
        c
    } else {
        Cell { value: v, version: c.version.wrapping_add(1) }
    }
}

/// A store of cells.
pub struct Signals<N> {
    cells: Vec<Cell<N>>,
}

impl<N: Num> View for Signals<N> {
    type V = Seq<Cell<N>>;

    closed spec fn view(&self) -> Seq<Cell<N>> {
        self.cells@
    }
}

/// The store after `v` is written to the cell at `i`.
pub open spec fn store_written<N: Num>(s: Seq<Cell<N>>, i: int, v: Value<N>) -> Seq<Cell<N>> {
    s.update(i, written(s[i], v))
}

impl<N: Num> Signals<N> {
    /// A store without cells.
    pub fn new() -> (r: Signals<N>)
        ensures
            r@ == Seq::<Cell<N>>::empty(),
    {
        Signals { cells: Vec::new() }
    }

    /// Adds a cell that holds `v`.
    pub fn create(&mut self, v: Value<N>) -> (r: SignalId)
        ensures
            final(self)@ == old(self)@.push(Cell { value: v, version: 0 }),
            r.index == old(self)@.len(),
    {
        let index: usize = self.cells.len();
        self.cells.push(Cell { value: v, version: 0 });
        SignalId { index }
    }

    /// The number of cells.
    pub fn len(&self) -> (r: usize)
        ensures
            r == self@.len(),
    {
        self.cells.len()
    }

    /// The value of a cell.
    pub fn get(&self, id: SignalId) -> (r: Value<N>)
        requires
            id.index < self@.len(),
        ensures
            r == self@[id.index as int].value,
    {
        self.cells[id.index].value
    }

    /// How often a cell has changed.
    pub fn version(&self, id: SignalId) -> (r: u64)
        requires
            id.index < self@.len(),
        ensures
            r == self@[id.index as int].version,
    {
        self.cells[id.index].version
    }

    /// Writes a cell. Returns whether its value changed.
    pub fn set(&mut self, id: SignalId, v: Value<N>) -> (r: bool)
        requires
            id.index < old(self)@.len(),
        ensures
            final(self)@ == store_written(old(self)@, id.index as int, v),
            r == !same_value(old(self)@[id.index as int].value, v),
    {
        let c: Cell<N> = self.cells[id.index];
        if value_eq(c.value, v) {
            assert(self.cells@.update(id.index as int, c) =~= self.cells@);
            return false;
        }
        self.cells.set(id.index, Cell { value: v, version: c.version.wrapping_add(1) });
        true
    }
}

/// Writing the value that a cell already holds changes nothing, provided the
/// value is equal to itself.
pub proof fn equal_write_is_no_change<N: Num>(s: Seq<Cell<N>>, i: int, v: Value<N>)
    requires
        0 <= i < s.len(),
        same_value(v, v),
    ensures
        store_written(store_written(s, i, v), i, v) == store_written(s, i, v),
{
    let t = store_written(s, i, v);
    if same_value(s[i].value, v) {
        assert(t =~= s);
    }
    assert(store_written(t, i, v) =~= t);
}

/// In exact numbers, two values are the same where all their numbers are.
pub open spec fn reads_alike<N>(value: spec_fn(N) -> real, a: Value<N>, b: Value<N>) -> bool {
    match (a, b) {
        (Value::Flag(x), Value::Flag(y)) => x == y,
        (Value::Scalar(x), Value::Scalar(y)) => value(x) == value(y),
        (Value::Pair(x), Value::Pair(y)) => value(x[0]) == value(y[0]) && value(x[1]) == value(
            y[1],
        ),
        (Value::Quad(x), Value::Quad(y)) => value(x[0]) == value(y[0]) && value(x[1]) == value(y[1])
            && value(x[2]) == value(y[2]) && value(x[3]) == value(y[3]),
        _ => false,
    }
}

/// What is written to a cell is read from it, and from no other. Its version
/// moves if and only if the value changed, so that whoever has seen the last
/// version can tell.
pub proof fn what_is_written_is_read<N: Num>(
    value: spec_fn(N) -> real,
    s: Seq<Cell<N>>,
    i: int,
    v: Value<N>,
)
    requires
        computes_exactly(value),
        0 <= i < s.len(),
    ensures
        ({
            let after = store_written(s, i, v);
            &&& after.len() == s.len()
            &&& reads_alike(value, after[i].value, v)
            &&& after[i].version == s[i].version <==> reads_alike(value, s[i].value, v)
            &&& forall|j: int| 0 <= j < s.len() && j != i ==> #[trigger] after[j] == s[j]
        }),
{
    assert(same_value(s[i].value, v) == reads_alike(value, s[i].value, v));
    assert(s[i].version.wrapping_add(1) != s[i].version);
}

} // verus!
