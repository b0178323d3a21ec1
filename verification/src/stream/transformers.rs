//! Transformers turn the items of a stream into other items.
use vstd::prelude::*;
use std::marker::PhantomData;
use crate::graph::GraphError;

verus! {

/// Turns one input into one output, or fails.
pub trait StreamTransformer {
    type Input;
    type Output;

    /// Whether the transformer can take `input`.
    spec fn accepts(&self, input: Self::Input) -> bool;

    /// What the transformer makes of `input` when it succeeds.
    spec fn result_of(&self, input: Self::Input, output: Self::Output) -> bool;

    /// Whether the transformer may fail on `input`.
    spec fn may_fail(&self, input: Self::Input) -> bool;

    /// Transforms one input.
    fn transform(&self, input: Self::Input) -> (r: Result<Self::Output, GraphError>)
        requires
            self.accepts(input),
        ensures
            r matches Ok(o) ==> self.result_of(input, o),
            r is Err ==> self.may_fail(input),
    ;
}

/// Applies a function to each item.
pub struct MapTransformer<F, I, O> {
    mapper: F,
    _phantom: PhantomData<(I, O)>,
}

impl<F, I, O> MapTransformer<F, I, O> {
    /// The function applied.
    pub closed spec fn mapper(&self) -> F {
        self.mapper
    }

    /// A transformer applying `mapper`.
    pub fn new(mapper: F) -> (t: MapTransformer<F, I, O>)
        ensures
            t.mapper() == mapper,
    {
        MapTransformer { mapper, _phantom: PhantomData }
    }
}

impl<F: Fn(I) -> O, I, O> StreamTransformer for MapTransformer<F, I, O> {
    type Input = I;
    type Output = O;

    open spec fn accepts(&self, input: I) -> bool {
        call_requires(self.mapper(), (input,))
    }

    open spec fn result_of(&self, input: I, output: O) -> bool {
        call_ensures(self.mapper(), (input,), output)
    }

    open spec fn may_fail(&self, input: I) -> bool {
        false
    }

    /// The mapped item; never fails.
    fn transform(&self, input: I) -> (r: Result<O, GraphError>)
        ensures
            r is Ok,
    {
        Ok((self.mapper)(input))
    }
}

/// Lets through the items that satisfy a predicate.
pub struct FilterTransformer<F, T> {
    predicate: F,
    _phantom: PhantomData<T>,
}

impl<F, T> FilterTransformer<F, T> {
    /// The predicate.
    pub closed spec fn predicate(&self) -> F {
        self.predicate
    }

    /// A transformer keeping the items that satisfy `predicate`.
    pub fn new(predicate: F) -> (t: FilterTransformer<F, T>)
        ensures
            t.predicate() == predicate,
    {
        FilterTransformer { predicate, _phantom: PhantomData }
    }
}

/// The message of an item that a filter dropped.
pub open spec fn filtered_message() -> Seq<char> {
    "Item filtered out"@
}

impl<F: Fn(&T) -> bool, T> StreamTransformer for FilterTransformer<F, T> {
    type Input = T;
    type Output = T;

    open spec fn accepts(&self, input: T) -> bool {
        call_requires(self.predicate(), (&input,))
    }

    open spec fn result_of(&self, input: T, output: T) -> bool {
        output == input && call_ensures(self.predicate(), (&input,), true)
    }

    open spec fn may_fail(&self, input: T) -> bool {
        call_ensures(self.predicate(), (&input,), false)
    }

    /// The item itself when the predicate holds; otherwise an error.
    fn transform(&self, input: T) -> (r: Result<T, GraphError>)
        ensures
            match r {
                Ok(o) => o == input && call_ensures(self.predicate(), (&input,), true),
                Err(e) => call_ensures(self.predicate(), (&input,), false) && (e matches GraphError::ValidationError(
                    m,
                ) && m@ == filtered_message()),
            },
    {
        if (self.predicate)(&input) {
            Ok(input)
        } else {
            Err(GraphError::ValidationError("Item filtered out".to_string()))
        }
    }
}

/// Runs one transformer, then another on its output.
pub struct ChainTransformer<T1, T2> {
    first: T1,
    second: T2,
}

impl<T1, T2> ChainTransformer<T1, T2> {
    /// The first stage.
    pub closed spec fn first(&self) -> T1 {
        self.first
    }

    /// The second stage.
    pub closed spec fn second(&self) -> T2 {
        self.second
    }

    /// `first`, then `second`.
    pub fn new(first: T1, second: T2) -> (t: ChainTransformer<T1, T2>)
        ensures
            t.first() == first,
            t.second() == second,
    {
        ChainTransformer { first, second }
    }
}

impl<T1: StreamTransformer, T2: StreamTransformer<Input = T1::Output>> StreamTransformer for ChainTransformer<
    T1,
    T2,
> {
    type Input = T1::Input;
    type Output = T2::Output;

    open spec fn accepts(&self, input: T1::Input) -> bool {
        &&& self.first().accepts(input)
        &&& forall|mid: T1::Output| #[trigger] self.first().result_of(input, mid) ==> self.second().accepts(mid)
    }

    open spec fn result_of(&self, input: T1::Input, output: T2::Output) -> bool {
        exists|mid: T1::Output| self.first().result_of(input, mid) && self.second().result_of(mid, output)
    }

    open spec fn may_fail(&self, input: T1::Input) -> bool {
        self.first().may_fail(input) || exists|mid: T1::Output|
            self.first().result_of(input, mid) && #[trigger] self.second().may_fail(mid)
    }

    /// The second stage applied to what the first gives; the first error
    /// stops the chain.
    fn transform(&self, input: T1::Input) -> (r: Result<T2::Output, GraphError>) {
        match self.first.transform(input) {
            Ok(mid) => {
                let ghost m = mid;
                assert(self.first().result_of(input, m));
                assert(self.second().accepts(m));
                let r = self.second.transform(mid);
                assert(r is Ok ==> self.first().result_of(input, m) && self.second().result_of(m, r->Ok_0));
                assert(r is Err ==> self.first().result_of(input, m) && self.second().may_fail(m));
                r
            },
            Err(e) => Err(e),
        }
    }
}

/// The message of a batch that is not full yet.
pub open spec fn not_full_message() -> Seq<char> {
    "Batch not full"@
}

/// Groups items into batches of a fixed size.
pub struct BatchTransformer<T> {
    batch_size: usize,
    buffer: Vec<T>,
}

impl<T> BatchTransformer<T> {
    /// The size of a batch.
    pub closed spec fn batch_size(&self) -> usize {
        self.batch_size
    }

    /// The items waiting for their batch to fill.
    pub closed spec fn buffer(&self) -> Seq<T> {
        self.buffer@
    }

    /// A transformer making batches of `batch_size` items.
    pub fn new(batch_size: usize) -> (t: BatchTransformer<T>)
        ensures
            t.batch_size() == batch_size,
            t.buffer().len() == 0,
    {
        BatchTransformer { batch_size, buffer: Vec::new() }
    }

    /// Adds an item; hands the batch over once it holds `batch_size` items,
    /// and otherwise reports that it is not full.
    pub fn transform(&mut self, input: T) -> (r: Result<Vec<T>, GraphError>)
        ensures
            final(self).batch_size() == old(self).batch_size(),
            old(self).buffer().len() + 1 >= old(self).batch_size() ==> {
                &&& r matches Ok(b) && b@ == old(self).buffer().push(input)
                &&& final(self).buffer().len() == 0
            },
            old(self).buffer().len() + 1 < old(self).batch_size() ==> {
                &&& r matches Err(GraphError::ValidationError(m)) && m@ == not_full_message()
                &&& final(self).buffer() == old(self).buffer().push(input)
            },
    {
        self.buffer.push(input);
        if self.buffer.len() >= self.batch_size {
            let mut batch: Vec<T> = Vec::new();
            std::mem::swap(&mut batch, &mut self.buffer);
            Ok(batch)
        } else {
            Err(GraphError::ValidationError("Batch not full".to_string()))
        }
    }
}

} // verus!
