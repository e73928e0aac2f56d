//! Typed value erasure: conversions between strongly typed task arguments
//! and the tagged, type-erased representation.
//!
//! Every supported argument type offers a never-failing erasure and a
//! narrowing conversion that fails exactly when the erased tag does not
//! match the expected shape. Narrowing the erasure of a value always
//! succeeds and yields a structurally equal value.

use vstd::prelude::*;
use crate::erased::{ErasedValue, ErasedView, Tag, tag_of, Vc};
use crate::errors::EngineError;

verus! {

broadcast use vstd::std_specs::vec::group_vec_axioms;

/// A type that can cross the typed/erased boundary.
///
/// `erased` is the mathematical image of a value under erasure; `accepts`
/// holds of exactly the erased shapes that narrow successfully; `same` is
/// structural equality of two typed values; `narrow_err` is the error that
/// narrowing an unacceptable shape reports.
pub trait TaskInput: Sized {
    /// The erased shape of this value.
    spec fn erased(&self) -> ErasedView;

    /// Whether an erased shape narrows successfully to this type.
    spec fn accepts(v: ErasedView) -> bool;

    /// Structural equality of two values of this type.
    spec fn same(&self, other: &Self) -> bool;

    /// The error reported when an unacceptable shape is narrowed.
    spec fn narrow_err(v: ErasedView) -> EngineError;

    /// Erase this value. Erasure never fails and picks the tagged variant
    /// matching the type.
    fn into_concrete(self) -> (r: ErasedValue)
        ensures
            r@ == self.erased(),
    ;

    /// Narrow an erased value back to this type, failing exactly when the
    /// tag does not match the expected shape.
    fn try_from_concrete(input: &ErasedValue) -> (r: Result<Self, EngineError>)
        ensures
            r is Ok <==> Self::accepts(input@),
            r matches Ok(v) ==> v.erased() == input@,
            r matches Err(e) ==> e@ == Self::narrow_err(input@)@,
    ;

    /// The erasure of any value of this type narrows successfully.
    proof fn lemma_accepts(&self)
        ensures
            Self::accepts(self.erased()),
    ;

    /// Erasure is injective up to structural equality: two values erase to
    /// the same shape exactly when they are structurally equal.
    proof fn lemma_same_iff_erased(&self, other: &Self)
        ensures
            self.same(other) <==> self.erased() == other.erased(),
    ;
}

/// Round-trip law: for every supported type and value, narrowing the
/// erasure succeeds — `try_from_concrete(&v.into_concrete())` returns `Ok` —
/// and any value with the erased shape of `v`, such as the one narrowing
/// returns, is structurally equal to `v`.
pub proof fn lemma_round_trip<T: TaskInput>(v: &T, w: &T)
    requires
        w.erased() == v.erased(),
    ensures
        T::accepts(v.erased()),
        w.same(v),
{
    v.lemma_accepts();
    w.lemma_same_iff_erased(v);
}

impl TaskInput for bool {
    open spec fn erased(&self) -> ErasedView {
        ErasedView::Bool(*self)
    }

    open spec fn accepts(v: ErasedView) -> bool {
        v matches ErasedView::Bool(_)
    }

    open spec fn same(&self, other: &Self) -> bool {
        *self == *other
    }

    open spec fn narrow_err(v: ErasedView) -> EngineError {
        EngineError::TypeMismatch { expected: Tag::Bool, actual: tag_of(v) }
    }

    fn into_concrete(self) -> (r: ErasedValue) {
        ErasedValue::Bool(self)
    }

    fn try_from_concrete(input: &ErasedValue) -> (r: Result<Self, EngineError>) {
        match input {
            ErasedValue::Bool(b) => Ok(*b),
            _ => Err(EngineError::TypeMismatch { expected: Tag::Bool, actual: input.tag() }),
        }
    }

    proof fn lemma_accepts(&self) {
    }

    proof fn lemma_same_iff_erased(&self, other: &Self) {
    }
}

impl TaskInput for u32 {
    open spec fn erased(&self) -> ErasedView {
        ErasedView::U32(*self)
    }

    open spec fn accepts(v: ErasedView) -> bool {
        v matches ErasedView::U32(_)
    }

    open spec fn same(&self, other: &Self) -> bool {
        *self == *other
    }

    open spec fn narrow_err(v: ErasedView) -> EngineError {
        EngineError::TypeMismatch { expected: Tag::U32, actual: tag_of(v) }
    }

    fn into_concrete(self) -> (r: ErasedValue) {
        ErasedValue::U32(self)
    }

    fn try_from_concrete(input: &ErasedValue) -> (r: Result<Self, EngineError>) {
        match input {
            ErasedValue::U32(n) => Ok(*n),
            _ => Err(EngineError::TypeMismatch { expected: Tag::U32, actual: input.tag() }),
        }
    }

    proof fn lemma_accepts(&self) {
    }

    proof fn lemma_same_iff_erased(&self, other: &Self) {
    }
}

impl TaskInput for i32 {
    open spec fn erased(&self) -> ErasedView {
        ErasedView::I32(*self)
    }

    open spec fn accepts(v: ErasedView) -> bool {
        v matches ErasedView::I32(_)
    }

    open spec fn same(&self, other: &Self) -> bool {
        *self == *other
    }

    open spec fn narrow_err(v: ErasedView) -> EngineError {
        EngineError::TypeMismatch { expected: Tag::I32, actual: tag_of(v) }
    }

    fn into_concrete(self) -> (r: ErasedValue) {
        ErasedValue::I32(self)
    }

    fn try_from_concrete(input: &ErasedValue) -> (r: Result<Self, EngineError>) {
        match input {
            ErasedValue::I32(n) => Ok(*n),
            _ => Err(EngineError::TypeMismatch { expected: Tag::I32, actual: input.tag() }),
        }
    }

    proof fn lemma_accepts(&self) {
    }

    proof fn lemma_same_iff_erased(&self, other: &Self) {
    }
}

impl TaskInput for u64 {
    open spec fn erased(&self) -> ErasedView {
        ErasedView::U64(*self)
    }

    open spec fn accepts(v: ErasedView) -> bool {
        v matches ErasedView::U64(_)
    }

    open spec fn same(&self, other: &Self) -> bool {
        *self == *other
    }

    open spec fn narrow_err(v: ErasedView) -> EngineError {
        EngineError::TypeMismatch { expected: Tag::U64, actual: tag_of(v) }
    }

    fn into_concrete(self) -> (r: ErasedValue) {
        ErasedValue::U64(self)
    }

    fn try_from_concrete(input: &ErasedValue) -> (r: Result<Self, EngineError>) {
        match input {
            ErasedValue::U64(n) => Ok(*n),
            _ => Err(EngineError::TypeMismatch { expected: Tag::U64, actual: input.tag() }),
        }
    }

    proof fn lemma_accepts(&self) {
    }

    proof fn lemma_same_iff_erased(&self, other: &Self) {
    }
}

impl TaskInput for usize {
    open spec fn erased(&self) -> ErasedView {
        ErasedView::Usize(*self)
    }

    open spec fn accepts(v: ErasedView) -> bool {
        v matches ErasedView::Usize(_)
    }

    open spec fn same(&self, other: &Self) -> bool {
        *self == *other
    }

    open spec fn narrow_err(v: ErasedView) -> EngineError {
        EngineError::TypeMismatch { expected: Tag::Usize, actual: tag_of(v) }
    }

    fn into_concrete(self) -> (r: ErasedValue) {
        ErasedValue::Usize(self)
    }

    fn try_from_concrete(input: &ErasedValue) -> (r: Result<Self, EngineError>) {
        match input {
            ErasedValue::Usize(n) => Ok(*n),
            _ => Err(EngineError::TypeMismatch { expected: Tag::Usize, actual: input.tag() }),
        }
    }

    proof fn lemma_accepts(&self) {
    }

    proof fn lemma_same_iff_erased(&self, other: &Self) {
    }
}

impl TaskInput for String {
    open spec fn erased(&self) -> ErasedView {
        ErasedView::Str(self@)
    }

    open spec fn accepts(v: ErasedView) -> bool {
        v matches ErasedView::Str(_)
    }

    open spec fn same(&self, other: &Self) -> bool {
        self@ == other@
    }

    open spec fn narrow_err(v: ErasedView) -> EngineError {
        EngineError::TypeMismatch { expected: Tag::Str, actual: tag_of(v) }
    }

    fn into_concrete(self) -> (r: ErasedValue) {
        ErasedValue::Str(self)
    }

    fn try_from_concrete(input: &ErasedValue) -> (r: Result<Self, EngineError>) {
        match input {
            ErasedValue::Str(s) => Ok(s.clone()),
            _ => Err(EngineError::TypeMismatch { expected: Tag::Str, actual: input.tag() }),
        }
    }

    proof fn lemma_accepts(&self) {
    }

    proof fn lemma_same_iff_erased(&self, other: &Self) {
    }
}

impl TaskInput for Vc {
    open spec fn erased(&self) -> ErasedView {
        match *self {
            Vc::Output { task } => ErasedView::Output { task },
            Vc::Cell { task, index } => ErasedView::Cell { task, index },
        }
    }

    open spec fn accepts(v: ErasedView) -> bool {
        v matches ErasedView::Output { .. } || v matches ErasedView::Cell { .. }
    }

    open spec fn same(&self, other: &Self) -> bool {
        *self == *other
    }

    open spec fn narrow_err(v: ErasedView) -> EngineError {
        EngineError::TypeMismatch { expected: Tag::Output, actual: tag_of(v) }
    }

    fn into_concrete(self) -> (r: ErasedValue) {
        match self {
            Vc::Output { task } => ErasedValue::Output { task },
            Vc::Cell { task, index } => ErasedValue::Cell { task, index },
        }
    }

    fn try_from_concrete(input: &ErasedValue) -> (r: Result<Self, EngineError>) {
        match input {
            ErasedValue::Output { task } => Ok(Vc::Output { task: *task }),
            ErasedValue::Cell { task, index } => Ok(Vc::Cell { task: *task, index: *index }),
            _ => Err(EngineError::TypeMismatch { expected: Tag::Output, actual: input.tag() }),
        }
    }

    proof fn lemma_accepts(&self) {
    }

    proof fn lemma_same_iff_erased(&self, other: &Self) {
    }
}

impl<T: TaskInput> TaskInput for Option<T> {
    /// An absent value erases to the absence marker; a present value erases
    /// to the wrapper around the inner value's erasure, so nesting is
    /// unambiguous.
    open spec fn erased(&self) -> ErasedView {
        match self {
            Option::None => ErasedView::Nothing,
            Option::Some(x) => ErasedView::Present(Box::new(x.erased())),
        }
    }

    open spec fn accepts(v: ErasedView) -> bool {
        ||| v matches ErasedView::Nothing
        ||| (v matches ErasedView::Present(inner) && T::accepts(*inner))
    }

    open spec fn same(&self, other: &Self) -> bool {
        match (self, other) {
            (Option::None, Option::None) => true,
            (Option::Some(a), Option::Some(b)) => a.same(b),
            _ => false,
        }
    }

    open spec fn narrow_err(v: ErasedView) -> EngineError {
        match v {
            ErasedView::Present(inner) => if !T::accepts(*inner) {
                T::narrow_err(*inner)
            } else {
                EngineError::TypeMismatch { expected: Tag::Present, actual: tag_of(v) }
            },
            _ => EngineError::TypeMismatch { expected: Tag::Present, actual: tag_of(v) },
        }
    }

    fn into_concrete(self) -> (r: ErasedValue) {
        match self {
            Option::None => ErasedValue::Nothing,
            Option::Some(x) => ErasedValue::Present(Box::new(x.into_concrete())),
        }
    }

    fn try_from_concrete(input: &ErasedValue) -> (r: Result<Self, EngineError>) {
        match input {
            ErasedValue::Nothing => Ok(None),
            ErasedValue::Present(inner) => match T::try_from_concrete(&**inner) {
                Ok(x) => Ok(Some(x)),
                Err(e) => Err(e),
            },
            _ => Err(EngineError::TypeMismatch { expected: Tag::Present, actual: input.tag() }),
        }
    }

    proof fn lemma_accepts(&self) {
        match self {
            Option::None => {},
            Option::Some(x) => x.lemma_accepts(),
        }
    }

    proof fn lemma_same_iff_erased(&self, other: &Self) {
        match (self, other) {
            (Option::Some(a), Option::Some(b)) => a.lemma_same_iff_erased(b),
            _ => {},
        }
    }
}

/// The elementwise erasure of a sequence of typed values.
pub open spec fn erased_seq<T: TaskInput>(s: Seq<T>) -> Seq<ErasedView> {
    Seq::new(s.len(), |i: int| s[i].erased())
}

/// The least index of `es` whose shape `T` does not accept, assuming one
/// exists.
pub open spec fn first_unaccepted<T: TaskInput>(es: Seq<ErasedView>) -> int
    decreases es.len(),
{
    if es.len() == 0 {
        0
    } else if !T::accepts(es[0]) {
        0
    } else {
        1 + first_unaccepted::<T>(es.drop_first())
    }
}

proof fn lemma_first_unaccepted<T: TaskInput>(es: Seq<ErasedView>, i: int)
    requires
        0 <= i < es.len(),
        forall|j: int| 0 <= j < i ==> T::accepts(#[trigger] es[j]),
        !T::accepts(es[i]),
    ensures
        first_unaccepted::<T>(es) == i,
    decreases i,
{
    if i > 0 {
        lemma_first_unaccepted::<T>(es.drop_first(), i - 1);
    }
}

impl<T: TaskInput> TaskInput for Vec<T> {
    open spec fn erased(&self) -> ErasedView {
        ErasedView::List(erased_seq(self@))
    }

    open spec fn accepts(v: ErasedView) -> bool {
        v matches ErasedView::List(es) && forall|i: int|
            0 <= i < es.len() ==> T::accepts(#[trigger] es[i])
    }

    open spec fn same(&self, other: &Self) -> bool {
        self@.len() == other@.len() && forall|i: int|
            0 <= i < self@.len() ==> #[trigger] self@[i].same(&other@[i])
    }

    open spec fn narrow_err(v: ErasedView) -> EngineError {
        match v {
            ErasedView::List(es) => T::narrow_err(es[first_unaccepted::<T>(es)]),
            _ => EngineError::TypeMismatch { expected: Tag::List, actual: tag_of(v) },
        }
    }

    fn into_concrete(self) -> (r: ErasedValue) {
        let ghost orig: Seq<T> = self@;
        let n = self.len();
        let mut rest = self;
        let mut reversed: Vec<ErasedValue> = Vec::new();
        while rest.len() > 0
            invariant
                n == orig.len(),
                rest@.len() + reversed@.len() == n,
                rest@ == orig.take(rest@.len() as int),
                forall|k: int| 0 <= k < reversed@.len()
                    ==> #[trigger] reversed@[k]@ == orig[n - 1 - k].erased(),
            decreases rest@.len(),
        {
            let ghost pre = rest@;
            let x = rest.pop().unwrap();
            proof {
                assert(pre.drop_last() =~= orig.take(rest@.len() as int));
                assert(x == orig[rest@.len() as int]);
            }
            reversed.push(x.into_concrete());
        }
        let mut out: Vec<ErasedValue> = Vec::new();
        let mut rev = reversed;
        while rev.len() > 0
            invariant
                n == orig.len(),
                rev@.len() + out@.len() == n,
                forall|k: int| 0 <= k < rev@.len()
                    ==> #[trigger] rev@[k]@ == orig[n - 1 - k].erased(),
                forall|k: int| 0 <= k < out@.len() ==> #[trigger] out@[k]@ == orig[k].erased(),
            decreases rev@.len(),
        {
            let x = rev.pop().unwrap();
            proof {
                assert(x@ == orig[n - 1 - (rev@.len() as int)].erased());
            }
            out.push(x);
        }
        proof {
            crate::erased::lemma_views_of(out@);
            assert forall|k: int| 0 <= k < n implies crate::erased::views_of(out@)[k]
                == erased_seq(orig)[k] by {
                assert(crate::erased::views_of(out@)[k] == crate::erased::ev_view(out@[k]));
                assert(out@[k]@ == orig[k].erased());
            }
            assert(crate::erased::views_of(out@) =~= erased_seq(orig));
        }
        ErasedValue::List(out)
    }

    fn try_from_concrete(input: &ErasedValue) -> (r: Result<Self, EngineError>) {
        match input {
            ErasedValue::List(items) => {
                proof {
                    crate::erased::lemma_views_of(items@);
                }
                let ghost es = crate::erased::views_of(items@);
                let n = items.len();
                let mut out: Vec<T> = Vec::new();
                let mut i: usize = 0;
                while i < n
                    invariant
                        n == items@.len(),
                        0 <= i <= n,
                        input@ == ErasedView::List(es),
                        es == crate::erased::views_of(items@),
                        es.len() == n,
                        forall|j: int| 0 <= j < n ==> es[j] == items@[j]@,
                        out@.len() == i,
                        forall|j: int| 0 <= j < i ==> T::accepts(#[trigger] es[j]),
                        forall|j: int| 0 <= j < i ==> #[trigger] out@[j].erased() == es[j],
                    decreases n - i,
                {
                    match T::try_from_concrete(&items[i]) {
                        Ok(x) => { out.push(x) },
                        Err(e) => {
                            proof {
                                lemma_first_unaccepted::<T>(es, i as int);
                                assert(input@ == ErasedView::List(es));
                                assert(es[i as int] == items@[i as int]@);
                                assert(!T::accepts(es[i as int]));
                                if <Vec<T> as TaskInput>::accepts(input@) {
                                    match input@ {
                                        ErasedView::List(es2) => {
                                            assert(es2 == es);
                                            assert(T::accepts(es2[i as int]));
                                        },
                                        _ => {},
                                    }
                                    assert(false);
                                }
                            }
                            return Err(e);
                        },
                    }
                    i = i + 1;
                }
                proof {
                    assert(input@ == ErasedView::List(es));
                    assert(erased_seq(out@) =~= es);
                }
                Ok(out)
            },
            _ => Err(EngineError::TypeMismatch { expected: Tag::List, actual: input.tag() }),
        }
    }

    proof fn lemma_accepts(&self) {
        assert forall|i: int| 0 <= i < erased_seq(self@).len() implies T::accepts(
            #[trigger] erased_seq(self@)[i],
        ) by {
            self@[i].lemma_accepts();
        }
    }

    proof fn lemma_same_iff_erased(&self, other: &Self) {
        let a = self@;
        let b = other@;
        if self.same(other) {
            assert forall|i: int| 0 <= i < a.len() implies #[trigger] erased_seq(a)[i]
                == erased_seq(b)[i] by {
                a[i].lemma_same_iff_erased(&b[i]);
            }
            assert(erased_seq(a) =~= erased_seq(b));
        }
        if self.erased() == other.erased() {
            assert(erased_seq(a).len() == erased_seq(b).len());
            assert forall|i: int| 0 <= i < a.len() implies #[trigger] a[i].same(&b[i]) by {
                assert(erased_seq(a)[i] == erased_seq(b)[i]);
                a[i].lemma_same_iff_erased(&b[i]);
            }
        }
    }
}

/// A persisted shared value: a value-type identifier plus an opaque
/// reference to the boxed payload. It participates in identity and equality
/// and is content-addressable across runs.
#[derive(Clone, Copy, Debug, PartialEq, Eq, Structural)]
pub struct Value {
    pub type_id: u64,
    pub reference: u64,
}

impl Value {
    /// Erase to the persisted shared variant, carrying the value-type
    /// identifier alongside the opaque payload reference.
    pub fn into_concrete(self) -> (r: ErasedValue)
        ensures
            r@ == (ErasedView::Shared { type_id: self.type_id, reference: self.reference }),
    {
        ErasedValue::Shared { type_id: self.type_id, reference: self.reference }
    }

    /// Narrow a persisted shared value, validating the embedded value-type
    /// identifier against the statically expected one before the downcast.
    /// A mismatch is a `TypeMismatch`, never a crash.
    pub fn try_from_concrete(input: &ErasedValue, expected_type_id: u64) -> (r: Result<
        Value,
        EngineError,
    >)
        ensures
            r is Ok <==> (input@ matches ErasedView::Shared { type_id, .. }
                && type_id == expected_type_id),
            r matches Ok(v) ==> v.type_id == expected_type_id && input@ == (ErasedView::Shared {
                type_id: v.type_id,
                reference: v.reference,
            }),
            r matches Err(e) ==> e == (EngineError::TypeMismatch {
                expected: Tag::Shared,
                actual: tag_of(input@),
            }),
    {
        match input {
            ErasedValue::Shared { type_id, reference } => {
                if *type_id == expected_type_id {
                    Ok(Value { type_id: *type_id, reference: *reference })
                } else {
                    Err(
                        EngineError::TypeMismatch { expected: Tag::Shared, actual: Tag::Shared },
                    )
                }
            },
            _ => Err(EngineError::TypeMismatch { expected: Tag::Shared, actual: input.tag() }),
        }
    }
}

/// A transient shared value, scoped to the current process: never compared
/// for caching purposes across process boundaries. The value-type identifier
/// still guards every downcast.
#[derive(Clone, Copy, Debug, PartialEq, Eq, Structural)]
pub struct TransientValue {
    pub type_id: u64,
    pub reference: u64,
}

impl TransientValue {
    /// Erase to the transient shared variant.
    pub fn into_concrete(self) -> (r: ErasedValue)
        ensures
            r@ == (ErasedView::TransientShared {
                type_id: self.type_id,
                reference: self.reference,
            }),
    {
        ErasedValue::TransientShared { type_id: self.type_id, reference: self.reference }
    }

    /// Narrow a transient shared value, validating the embedded value-type
    /// identifier against the statically expected one.
    pub fn try_from_concrete(input: &ErasedValue, expected_type_id: u64) -> (r: Result<
        TransientValue,
        EngineError,
    >)
        ensures
            r is Ok <==> (input@ matches ErasedView::TransientShared { type_id, .. }
                && type_id == expected_type_id),
            r matches Ok(v) ==> v.type_id == expected_type_id && input@
                == (ErasedView::TransientShared { type_id: v.type_id, reference: v.reference }),
            r matches Err(e) ==> e == (EngineError::TypeMismatch {
                expected: Tag::TransientShared,
                actual: tag_of(input@),
            }),
    {
        match input {
            ErasedValue::TransientShared { type_id, reference } => {
                if *type_id == expected_type_id {
                    Ok(TransientValue { type_id: *type_id, reference: *reference })
                } else {
                    Err(
                        EngineError::TypeMismatch {
                            expected: Tag::TransientShared,
                            actual: Tag::TransientShared,
                        },
                    )
                }
            },
            _ => Err(
                EngineError::TypeMismatch {
                    expected: Tag::TransientShared,
                    actual: input.tag(),
                },
            ),
        }
    }
}

/// A transient opaque instance: a shared reference with no content equality
/// contract at all — identity only.
#[derive(Clone, Copy, Debug, PartialEq, Eq, Structural)]
pub struct TransientInstance {
    pub type_id: u64,
    pub reference: u64,
}

impl TransientInstance {
    /// Erase to the opaque instance-reference variant.
    pub fn into_concrete(self) -> (r: ErasedValue)
        ensures
            r@ == (ErasedView::Instance { type_id: self.type_id, reference: self.reference }),
    {
        ErasedValue::Instance { type_id: self.type_id, reference: self.reference }
    }

    /// Narrow an instance reference, validating its type identifier against
    /// the statically expected one.
    pub fn try_from_concrete(input: &ErasedValue, expected_type_id: u64) -> (r: Result<
        TransientInstance,
        EngineError,
    >)
        ensures
            r is Ok <==> (input@ matches ErasedView::Instance { type_id, .. }
                && type_id == expected_type_id),
            r matches Ok(v) ==> v.type_id == expected_type_id && input@ == (ErasedView::Instance {
                type_id: v.type_id,
                reference: v.reference,
            }),
            r matches Err(e) ==> e == (EngineError::TypeMismatch {
                expected: Tag::Instance,
                actual: tag_of(input@),
            }),
    {
        match input {
            ErasedValue::Instance { type_id, reference } => {
                if *type_id == expected_type_id {
                    Ok(TransientInstance { type_id: *type_id, reference: *reference })
                } else {
                    Err(
                        EngineError::TypeMismatch {
                            expected: Tag::Instance,
                            actual: Tag::Instance,
                        },
                    )
                }
            },
            _ => Err(EngineError::TypeMismatch { expected: Tag::Instance, actual: input.tag() }),
        }
    }
}

} // verus!
