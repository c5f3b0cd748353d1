//! Heterogeneous lists built at the type level: [`Nil`] is the empty list, and [`Cons`] puts a head of any type in
//! front of a list.
use vstd::prelude::*;

verus! {

/// The empty list.
#[derive(Copy, Clone, PartialEq, Eq, Structural, PartialOrd, Ord, Hash, Debug)]
pub struct Nil;

impl Default for Nil {
    /// The empty list.
    fn default() -> (r: Self)
        ensures
            r == Nil,
    {
        Nil
    }
}

/// A list of `head` in front of the list `tail`.
#[derive(Default, Copy, Clone, PartialEq, Eq, PartialOrd, Ord, Hash, Debug)]
pub struct Cons<Head, Tail> {
    head: Head,
    tail: Tail,
}

impl<Head, Tail> Cons<Head, Tail> {
    /// The first element of the list.
    pub closed spec fn head(self) -> Head {
        self.head
    }

    /// The list after the first element.
    pub closed spec fn tail(self) -> Tail {
        self.tail
    }

    /// The list of `head` in front of `tail`.
    pub fn new(head: Head, tail: Tail) -> (r: Self)
        ensures
            r.head() == head,
            r.tail() == tail,
    {
        Self { head, tail }
    }
}

/// What only the list types of this module implement.
pub trait Sealed {}

impl Sealed for Nil {}

impl<Head, Tail: Sealed> Sealed for Cons<Head, Tail> {}

/// A list: [`Nil`], or a [`Cons`] whose tail is a list.
pub trait List: Sealed {}

impl List for Nil {}

impl<Head, Tail: List> List for Cons<Head, Tail> {}

/// Prepending to a list.
pub trait Prepend: List + Sized {
    /// The list of `value` in front of this list.
    fn prepend<T>(self, value: T) -> (r: Cons<T, Self>)
        ensures
            r.head() == value,
            r.tail() == self,
    ;
}

impl Prepend for Nil {
    fn prepend<T>(self, value: T) -> (r: Cons<T, Self>) {
        Cons::new(value, self)
    }
}

impl<Head, Rest: List> Prepend for Cons<Head, Rest> {
    fn prepend<T>(self, value: T) -> (r: Cons<T, Self>) {
        Cons::new(value, self)
    }
}

/// Folding over a list, front to back.
pub trait Fold<A, F>: List + Sized {
    /// Whether this list can be folded into `accumulator` with `folder`: every step may be taken on what the steps
    /// before it left.
    spec fn can_fold(self, accumulator: A, folder: F) -> bool;

    /// Whether folding this list into `accumulator` with `folder` can give `result`: the first element is folded
    /// into `accumulator`, each later element into what the step before it gave, and `result` is what the last
    /// step gave (`accumulator` itself for the empty list).
    spec fn folds_to(self, accumulator: A, folder: F, result: A) -> bool;

    /// Folds the elements of this list into `accumulator` with `folder`, front to back.
    fn fold(self, accumulator: A, folder: F) -> (r: A)
        requires
            self.can_fold(accumulator, folder),
        ensures
            self.folds_to(accumulator, folder, r),
    ;
}

impl<A, F> Fold<A, F> for Nil {
    open spec fn can_fold(self, accumulator: A, folder: F) -> bool {
        true
    }

    open spec fn folds_to(self, accumulator: A, folder: F, result: A) -> bool {
        result == accumulator
    }

    fn fold(self, accumulator: A, folder: F) -> (r: A) {
        accumulator
    }
}

impl<A, F, Head, Tail> Fold<A, F> for Cons<Head, Tail> where F: FnMut(A, Head) -> A, Tail: Fold<A, F> {
    /// The closure may be called on `accumulator` and the head, and the tail can be folded into whatever that
    /// call returns.
    open spec fn can_fold(self, accumulator: A, folder: F) -> bool {
        &&& call_requires(folder, (accumulator, self.head()))
        &&& forall|step: A|
            call_ensures(folder, (accumulator, self.head()), step) ==> #[trigger] self.tail().can_fold(step, folder)
    }

    /// The closure, called on `accumulator` and the head, can return a value into which folding the tail can
    /// give `result`.
    open spec fn folds_to(self, accumulator: A, folder: F, result: A) -> bool {
        exists|step: A|
            call_ensures(folder, (accumulator, self.head()), step) && #[trigger] self.tail().folds_to(
                step,
                folder,
                result,
            )
    }

    fn fold(self, accumulator: A, folder: F) -> (r: A) {
        let ghost folder0 = folder;
        let mut folder = folder;
        let step = folder(accumulator, self.head);
        assert(self.tail().can_fold(step, folder0));
        let r = self.tail.fold(step, folder);
        assert(self.tail().folds_to(step, folder0, r));
        r
    }
}

/// Folding a list with a closure, spelled out for the first element: the list can be folded when the closure may be
/// called on the accumulator and the head and the tail can be folded into whatever that call returns; and the
/// fold can give `result` when that call can return a value into which folding the tail can give `result`.
pub proof fn lemma_fold_with_closure<A, F: FnMut(A, Head) -> A, Head, Tail: Fold<A, F>>(
    list: Cons<Head, Tail>,
    accumulator: A,
    folder: F,
    result: A,
)
    ensures
        list.can_fold(accumulator, folder) <==> (call_requires(folder, (accumulator, list.head())) && forall|step: A|
            call_ensures(folder, (accumulator, list.head()), step) ==> #[trigger] list.tail().can_fold(step, folder)),
        list.folds_to(accumulator, folder, result) <==> exists|step: A|
            call_ensures(folder, (accumulator, list.head()), step) && #[trigger] list.tail().folds_to(step, folder, result),
{
}

/// Wraps a [`FolderFn`], to fold over lists whose elements have different types.
pub struct Folder<T>(pub T);

/// A fold step for elements of type `T`.
pub trait FolderFn<A, T>: Sized {
    /// Whether folding `value` into `accumulator` may return `result` and leave the fold step as `after`. A fold step
    /// that does not say more allows every outcome.
    open spec fn folds(&self, accumulator: A, value: T, result: A, after: Self) -> bool {
        true
    }

    /// Folds `value` into `accumulator`.
    fn fold(&mut self, accumulator: A, value: T) -> (r: A)
        ensures
            old(self).folds(accumulator, value, r, *final(self)),
    ;
}

impl<A, F, Head, Tail> Fold<A, Folder<F>> for Cons<Head, Tail> where F: FolderFn<A, Head>, Tail: Fold<A, Folder<F>> {
    /// Whatever the step on the head may return and become, the tail can be folded into that result with the
    /// step that follows.
    open spec fn can_fold(self, accumulator: A, folder: Folder<F>) -> bool {
        forall|step: A, next: F|
            #[trigger] folder.0.folds(accumulator, self.head(), step, next) ==> self.tail().can_fold(
                step,
                Folder(next),
            )
    }

    /// The step on the head may return some value and become some step such that folding the tail into that
    /// value with that step can give `result`.
    open spec fn folds_to(self, accumulator: A, folder: Folder<F>, result: A) -> bool {
        exists|step: A, next: F|
            #[trigger] folder.0.folds(accumulator, self.head(), step, next) && self.tail().folds_to(
                step,
                Folder(next),
                result,
            )
    }

    fn fold(self, accumulator: A, folder: Folder<F>) -> (r: A) {
        let mut folder = folder;
        let step = folder.0.fold(accumulator, self.head);
        let ghost next = folder.0;
        assert(folder == Folder(next));
        let r = self.tail.fold(step, folder);
        assert(self.tail().folds_to(step, Folder(next), r));
        r
    }
}

/// Converting a list to the list of references to its elements, for references that live as long as `'a`.
pub trait ToRef<'a>: List {
    /// The list of references to the elements of a list of this type.
    type Ref: List;

    /// The list of references to the elements of this list.
    fn to_ref(&'a self) -> Self::Ref;
}

impl<'a> ToRef<'a> for Nil {
    type Ref = Nil;

    fn to_ref(&'a self) -> (r: Nil)
        ensures
            r == *self,
    {
        *self
    }
}

impl<'a, Head: 'a, Tail: ToRef<'a> + 'a> ToRef<'a> for Cons<Head, Tail> {
    type Ref = Cons<&'a Head, Tail::Ref>;

    fn to_ref(&'a self) -> (r: Cons<&'a Head, Tail::Ref>)
        ensures
            *r.head() == self.head(),
    {
        Cons::new(&self.head, self.tail.to_ref())
    }
}

} // verus!
