//! The tagged, type-erased value representation.
//!
//! Every task argument and result is carried as an `ErasedValue`: a closed
//! tagged union over primitive scalars, an ordered sequence, an absence
//! marker with a companion wrapper for present optional values, three kinds
//! of shared values, and two handle variants referencing another task's
//! output or one of its cells. Equality between erased values is structural
//! (tag plus contents), never reference identity.

use vstd::prelude::*;

verus! {

broadcast use
    vstd::std_specs::vec::group_vec_axioms,
    vstd::seq::axiom_seq_index_decreases,
    vstd::seq::axiom_seq_subrange_decreases;

/// A handle locating a memoized value: either a task's designated output
/// cell or one of its intermediate cells, by write order. A `Vc` never owns
/// the value; it is identity plus lookup only.
#[derive(Clone, Copy, Debug, PartialEq, Eq, Structural)]
pub enum Vc {
    /// The designated output cell of the task with this identity.
    Output { task: usize },
    /// The cell written at `index` during the task's execution.
    Cell { task: usize, index: usize },
}

/// The tag of an `ErasedValue` variant, reported by conversion errors.
#[derive(Clone, Copy, Debug, PartialEq, Eq, Structural)]
pub enum Tag {
    Bool,
    U32,
    I32,
    U64,
    Usize,
    Str,
    List,
    Nothing,
    Present,
    Shared,
    TransientShared,
    Instance,
    Output,
    Cell,
}

/// A type-erased task argument or result.
///
/// The three shared kinds are deliberately distinct variants: a `Shared`
/// value is persisted and content-addressable across runs, a
/// `TransientShared` value is scoped to the current process, and an
/// `Instance` is an opaque shared reference with identity-only equality.
/// Conversions never conflate them.
///
/// An absent optional value erases to `Nothing`; a present one erases to
/// `Present` wrapping the inner value's erasure, so that nested optional
/// values survive a round trip unambiguously.
#[derive(Debug)]
pub enum ErasedValue {
    Bool(bool),
    U32(u32),
    I32(i32),
    U64(u64),
    Usize(usize),
    Str(String),
    List(Vec<ErasedValue>),
    Nothing,
    Present(Box<ErasedValue>),
    /// A persisted shared value: an explicit value-type identifier plus an
    /// opaque reference to the boxed payload.
    Shared { type_id: u64, reference: u64 },
    /// A process-local shared value, never compared across process
    /// boundaries; the type identifier still guards every downcast.
    TransientShared { type_id: u64, reference: u64 },
    /// An opaque shared instance reference with no content equality.
    Instance { type_id: u64, reference: u64 },
    /// A handle to the output of the task with the given identity.
    Output { task: usize },
    /// A handle to one intermediate cell of the task with the given identity.
    Cell { task: usize, index: usize },
}

/// The mathematical shape of an `ErasedValue`: the same tree with strings as
/// character sequences and lists as sequences.
pub enum ErasedView {
    Bool(bool),
    U32(u32),
    I32(i32),
    U64(u64),
    Usize(usize),
    Str(Seq<char>),
    List(Seq<ErasedView>),
    Nothing,
    Present(Box<ErasedView>),
    Shared { type_id: u64, reference: u64 },
    TransientShared { type_id: u64, reference: u64 },
    Instance { type_id: u64, reference: u64 },
    Output { task: usize },
    Cell { task: usize, index: usize },
}

/// The views of a sequence of erased values, elementwise.
pub open spec fn views_of(items: Seq<ErasedValue>) -> Seq<ErasedView>
    decreases items,
{
    if items.len() <= 0 {
        Seq::empty()
    } else {
        views_of(items.drop_last()).push(ev_view(items[items.len() - 1]))
    }
}

/// The mathematical shape of one erased value.
pub open spec fn ev_view(v: ErasedValue) -> ErasedView
    decreases v,
{
    match v {
        ErasedValue::Bool(b) => ErasedView::Bool(b),
        ErasedValue::U32(n) => ErasedView::U32(n),
        ErasedValue::I32(n) => ErasedView::I32(n),
        ErasedValue::U64(n) => ErasedView::U64(n),
        ErasedValue::Usize(n) => ErasedView::Usize(n),
        ErasedValue::Str(s) => ErasedView::Str(s@),
        ErasedValue::List(items) => ErasedView::List(views_of(items@)),
        ErasedValue::Nothing => ErasedView::Nothing,
        ErasedValue::Present(inner) => ErasedView::Present(Box::new(ev_view(*inner))),
        ErasedValue::Shared { type_id, reference } => ErasedView::Shared { type_id, reference },
        ErasedValue::TransientShared { type_id, reference } => ErasedView::TransientShared {
            type_id,
            reference,
        },
        ErasedValue::Instance { type_id, reference } => ErasedView::Instance {
            type_id,
            reference,
        },
        ErasedValue::Output { task } => ErasedView::Output { task },
        ErasedValue::Cell { task, index } => ErasedView::Cell { task, index },
    }
}

/// `views_of` maps elementwise: same length, and the view of each element.
pub broadcast proof fn lemma_views_of(items: Seq<ErasedValue>)
    ensures
        #[trigger] views_of(items).len() == items.len(),
        forall|i: int| 0 <= i < items.len() ==> views_of(items)[i] == ev_view(items[i]),
    decreases items,
{
    if items.len() > 0 {
        lemma_views_of(items.drop_last());
    }
}

impl View for ErasedValue {
    type V = ErasedView;

    open spec fn view(&self) -> ErasedView {
        ev_view(*self)
    }
}

/// The tag of an erased value's shape.
pub open spec fn tag_of(v: ErasedView) -> Tag {
    match v {
        ErasedView::Bool(_) => Tag::Bool,
        ErasedView::U32(_) => Tag::U32,
        ErasedView::I32(_) => Tag::I32,
        ErasedView::U64(_) => Tag::U64,
        ErasedView::Usize(_) => Tag::Usize,
        ErasedView::Str(_) => Tag::Str,
        ErasedView::List(_) => Tag::List,
        ErasedView::Nothing => Tag::Nothing,
        ErasedView::Present(_) => Tag::Present,
        ErasedView::Shared { .. } => Tag::Shared,
        ErasedView::TransientShared { .. } => Tag::TransientShared,
        ErasedView::Instance { .. } => Tag::Instance,
        ErasedView::Output { .. } => Tag::Output,
        ErasedView::Cell { .. } => Tag::Cell,
    }
}

impl ErasedValue {
    /// The tag of this value's variant.
    pub fn tag(&self) -> (t: Tag)
        ensures
            t == tag_of(self@),
    {
        match self {
            ErasedValue::Bool(_) => Tag::Bool,
            ErasedValue::U32(_) => Tag::U32,
            ErasedValue::I32(_) => Tag::I32,
            ErasedValue::U64(_) => Tag::U64,
            ErasedValue::Usize(_) => Tag::Usize,
            ErasedValue::Str(_) => Tag::Str,
            ErasedValue::List(_) => Tag::List,
            ErasedValue::Nothing => Tag::Nothing,
            ErasedValue::Present(_) => Tag::Present,
            ErasedValue::Shared { .. } => Tag::Shared,
            ErasedValue::TransientShared { .. } => Tag::TransientShared,
            ErasedValue::Instance { .. } => Tag::Instance,
            ErasedValue::Output { .. } => Tag::Output,
            ErasedValue::Cell { .. } => Tag::Cell,
        }
    }
}

impl Clone for ErasedValue {
    /// A clone has the same shape: same tag and equal contents, recursively.
    fn clone(&self) -> (r: Self)
        ensures
            r@ == self@,
    {
        clone_erased(self)
    }
}

/// A structural copy of an erased value.
pub fn clone_erased(v: &ErasedValue) -> (r: ErasedValue)
    ensures
        r@ == v@,
    decreases *v,
{
    match v {
        ErasedValue::Bool(b) => ErasedValue::Bool(*b),
        ErasedValue::U32(n) => ErasedValue::U32(*n),
        ErasedValue::I32(n) => ErasedValue::I32(*n),
        ErasedValue::U64(n) => ErasedValue::U64(*n),
        ErasedValue::Usize(n) => ErasedValue::Usize(*n),
        ErasedValue::Str(s) => ErasedValue::Str(s.clone()),
        ErasedValue::List(items) => ErasedValue::List(clone_erased_list(v, items)),
        ErasedValue::Nothing => ErasedValue::Nothing,
        ErasedValue::Present(inner) => ErasedValue::Present(Box::new(clone_erased(&**inner))),
        ErasedValue::Shared { type_id, reference } => ErasedValue::Shared {
            type_id: *type_id,
            reference: *reference,
        },
        ErasedValue::TransientShared { type_id, reference } => ErasedValue::TransientShared {
            type_id: *type_id,
            reference: *reference,
        },
        ErasedValue::Instance { type_id, reference } => ErasedValue::Instance {
            type_id: *type_id,
            reference: *reference,
        },
        ErasedValue::Output { task } => ErasedValue::Output { task: *task },
        ErasedValue::Cell { task, index } => ErasedValue::Cell { task: *task, index: *index },
    }
}

/// An elementwise structural copy of an erased list. `v` is the list value
/// owning `x`; it is passed along only to bound the recursion.
fn clone_erased_list(v: &ErasedValue, x: &Vec<ErasedValue>) -> (r: Vec<ErasedValue>)
    requires
        *v matches ErasedValue::List(items) && items == *x,
    ensures
        views_of(r@) == views_of(x@),
    decreases *v, 0int,
{
    proof {
        lemma_views_of(x@);
    }
    let n = x.len();
    let mut r: Vec<ErasedValue> = Vec::new();
    let mut i: usize = 0;
    while i < n
        invariant
            n == x@.len(),
            0 <= i <= n,
            *v matches ErasedValue::List(items) && items == *x,
            r@.len() == i,
            forall|j: int| 0 <= j < i ==> ev_view(r@[j]) == ev_view(x@[j]),
        decreases n - i,
    {
        r.push(clone_erased(&x[i]));
        i = i + 1;
    }
    proof {
        lemma_views_of(r@);
        assert(views_of(r@) =~= views_of(x@));
    }
    r
}

/// Structural equality of two erased values: same tag and equal contents,
/// recursively. Two independently constructed erased values representing the
/// same logical argument are equal.
pub fn eq_erased(a: &ErasedValue, b: &ErasedValue) -> (r: bool)
    ensures
        r == (a@ == b@),
    decreases *a,
{
    match a {
        ErasedValue::Bool(x) => match b {
            ErasedValue::Bool(y) => x == y,
            _ => false,
        },
        ErasedValue::U32(x) => match b {
            ErasedValue::U32(y) => x == y,
            _ => false,
        },
        ErasedValue::I32(x) => match b {
            ErasedValue::I32(y) => x == y,
            _ => false,
        },
        ErasedValue::U64(x) => match b {
            ErasedValue::U64(y) => x == y,
            _ => false,
        },
        ErasedValue::Usize(x) => match b {
            ErasedValue::Usize(y) => x == y,
            _ => false,
        },
        ErasedValue::Str(x) => match b {
            ErasedValue::Str(y) => *x == *y,
            _ => false,
        },
        ErasedValue::List(x) => match b {
            ErasedValue::List(y) => eq_erased_list(a, x, y),
            _ => false,
        },
        ErasedValue::Nothing => match b {
            ErasedValue::Nothing => true,
            _ => false,
        },
        ErasedValue::Present(x) => match b {
            ErasedValue::Present(y) => eq_erased(&**x, &**y),
            _ => false,
        },
        ErasedValue::Shared { type_id: t1, reference: r1 } => match b {
            ErasedValue::Shared { type_id: t2, reference: r2 } => t1 == t2 && r1 == r2,
            _ => false,
        },
        ErasedValue::TransientShared { type_id: t1, reference: r1 } => match b {
            ErasedValue::TransientShared { type_id: t2, reference: r2 } => t1 == t2 && r1 == r2,
            _ => false,
        },
        ErasedValue::Instance { type_id: t1, reference: r1 } => match b {
            ErasedValue::Instance { type_id: t2, reference: r2 } => t1 == t2 && r1 == r2,
            _ => false,
        },
        ErasedValue::Output { task: t1 } => match b {
            ErasedValue::Output { task: t2 } => t1 == t2,
            _ => false,
        },
        ErasedValue::Cell { task: t1, index: i1 } => match b {
            ErasedValue::Cell { task: t2, index: i2 } => t1 == t2 && i1 == i2,
            _ => false,
        },
    }
}

/// Elementwise structural equality of two sequences of erased values, such
/// as two task argument lists.
pub fn eq_value_lists(x: &Vec<ErasedValue>, y: &Vec<ErasedValue>) -> (r: bool)
    ensures
        r == (views_of(x@) == views_of(y@)),
{
    proof {
        lemma_views_of(x@);
        lemma_views_of(y@);
    }
    if x.len() != y.len() {
        return false;
    }
    let n = x.len();
    let mut i: usize = 0;
    while i < n
        invariant
            n == x@.len() == y@.len(),
            0 <= i <= n,
            forall|j: int| 0 <= j < i ==> views_of(x@)[j] == views_of(y@)[j],
            views_of(x@).len() == n,
            views_of(y@).len() == n,
            forall|j: int| 0 <= j < n ==> views_of(x@)[j] == ev_view(x@[j]),
            forall|j: int| 0 <= j < n ==> views_of(y@)[j] == ev_view(y@[j]),
        decreases n - i,
    {
        if !eq_erased(&x[i], &y[i]) {
            proof {
                assert(ev_view(x@[i as int]) != ev_view(y@[i as int]));
                assert(views_of(x@)[i as int] != views_of(y@)[i as int]);
            }
            return false;
        }
        i = i + 1;
    }
    proof {
        assert(views_of(x@) =~= views_of(y@));
    }
    true
}

/// Elementwise structural equality of two erased lists. `a` is the list value
/// owning `x`; it is passed along only to bound the recursion.
fn eq_erased_list(a: &ErasedValue, x: &Vec<ErasedValue>, y: &Vec<ErasedValue>) -> (r: bool)
    requires
        *a matches ErasedValue::List(items) && items == *x,
    ensures
        r == (views_of(x@) == views_of(y@)),
    decreases *a, 0int,
{
    proof {
        lemma_views_of(x@);
        lemma_views_of(y@);
    }
    if x.len() != y.len() {
        return false;
    }
    let n = x.len();
    let mut i: usize = 0;
    while i < n
        invariant
            n == x@.len() == y@.len(),
            0 <= i <= n,
            *a matches ErasedValue::List(items) && items == *x,
            forall|j: int| 0 <= j < i ==> views_of(x@)[j] == views_of(y@)[j],
            views_of(x@).len() == n,
            views_of(y@).len() == n,
            forall|j: int| 0 <= j < n ==> views_of(x@)[j] == ev_view(x@[j]),
            forall|j: int| 0 <= j < n ==> views_of(y@)[j] == ev_view(y@[j]),
        decreases n - i,
    {
        if !eq_erased(&x[i], &y[i]) {
            proof {
                assert(ev_view(x@[i as int]) != ev_view(y@[i as int]));
                assert(views_of(x@)[i as int] != views_of(y@)[i as int]);
            }
            return false;
        }
        i = i + 1;
    }
    proof {
        assert(views_of(x@) =~= views_of(y@));
    }
    true
}

} // verus!
