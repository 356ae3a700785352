//! Decisions of the bounded task runner: which input starts next, what a
//! completion does, and when a batch is over. The caller performs the work
//! (spawns, awaits) and reports each completion back.
use vstd::prelude::*;

verus! {

/// How one operation of a batch ended.
pub enum Outcome<O, E> {
    /// The operation returned a value.
    Done(O),
    /// The operation returned an error of its own.
    Failed(E),
    /// The worker that ran the operation crashed.
    Crashed,
}

/// Why a batch ended without its results.
pub enum RunError<E> {
    /// The first operation that failed returned this error.
    Failed(E),
    /// A worker crashed before any operation failed.
    Crashed,
}

/// A window over `total` inputs with at most `cap` operations in flight.
/// A sliding window starts the next input as soon as one completes; a
/// chunked one starts `cap` inputs and waits for all of them before it
/// starts the next `cap`. After the first failure no operation starts; those
/// in flight may still complete, and what they return is dropped.
pub struct Window<O, E> {
    cap: usize,
    total: usize,
    chunked: bool,
    chunk_end: usize,
    started: usize,
    in_flight: usize,
    outputs: Vec<O>,
    error: Option<RunError<E>>,
    running: Ghost<Set<int>>,
    origin: Ghost<Seq<int>>,
}

/// The integers `0..n`.
pub open spec fn index_range(n: int) -> Set<int> {
    Set::new(|i: int| 0 <= i < n)
}

impl<O, E> Window<O, E> {
    pub closed spec fn cap(&self) -> nat {
        self.cap as nat
    }

    pub closed spec fn total(&self) -> nat {
        self.total as nat
    }

    /// How many inputs have been handed out so far (they are `0..started`).
    pub closed spec fn started(&self) -> nat {
        self.started as nat
    }

    /// The inputs handed out and not yet completed.
    pub closed spec fn running(&self) -> Set<int> {
        self.running@
    }

    /// The results kept so far, in order of completion.
    pub closed spec fn outputs(&self) -> Seq<O> {
        self.outputs@
    }

    /// `origin()[j]` is the input whose operation produced `outputs()[j]`.
    pub closed spec fn origin(&self) -> Seq<int> {
        self.origin@
    }

    pub closed spec fn error(&self) -> Option<RunError<E>> {
        self.error
    }

    pub closed spec fn is_chunked(&self) -> bool {
        self.chunked
    }

    /// Where the current chunk of a chunked window ends.
    pub closed spec fn chunk_end(&self) -> nat {
        self.chunk_end as nat
    }

    /// Whether the next input may start now: no operation has failed,
    /// inputs remain, and the window has room (a chunked window: the current
    /// chunk has inputs left, or every operation of it has completed).
    pub open spec fn may_start(&self) -> bool {
        &&& self.error() is None
        &&& self.started() < self.total()
        &&& if self.is_chunked() {
            self.started() < self.chunk_end() || self.in_flight() == 0
        } else {
            self.in_flight() < self.cap()
        }
    }

    pub closed spec fn wf(&self) -> bool {
        &&& 0 < self.cap
        &&& self.started <= self.total
        &&& self.in_flight <= self.cap
        &&& self.chunked ==> self.started <= self.chunk_end <= self.total
            && self.chunk_end - self.started + self.in_flight <= self.cap
        &&& self.running@.finite()
        &&& self.running@.len() == self.in_flight
        &&& self.running@.subset_of(index_range(self.started as int))
        &&& self.outputs@.len() == self.origin@.len()
        &&& self.origin@.no_duplicates()
        &&& forall|j: int|
            0 <= j < self.origin@.len() ==> 0 <= #[trigger] self.origin@[j] < self.started
                && !self.running@.contains(self.origin@[j])
        &&& self.error is None ==> forall|i: int|
            0 <= i < self.started ==> (self.running@.contains(i) || self.origin@.contains(i))
    }

    /// The number of operations in flight.
    pub closed spec fn in_flight(&self) -> nat {
        self.running@.len()
    }

    /// A sliding window over `total` inputs with room for `cap` operations
    /// at a time.
    pub fn new(total: usize, cap: usize) -> (w: Self)
        requires
            cap > 0,
        ensures
            w.wf(),
            !w.is_chunked(),
            w.cap() == cap,
            w.total() == total,
            w.started() == 0,
            w.running() == Set::<int>::empty(),
            w.outputs() == Seq::<O>::empty(),
            w.origin() == Seq::<int>::empty(),
            w.error() is None,
    {
        Window {
            cap,
            total,
            chunked: false,
            chunk_end: 0,
            started: 0,
            in_flight: 0,
            outputs: Vec::new(),
            error: None,
            running: Ghost(Set::empty()),
            origin: Ghost(Seq::empty()),
        }
    }

    /// A chunked window over `total` inputs, `cap` inputs to a chunk.
    pub fn chunked(total: usize, cap: usize) -> (w: Self)
        requires
            cap > 0,
        ensures
            w.wf(),
            w.is_chunked(),
            w.cap() == cap,
            w.total() == total,
            w.started() == 0,
            w.running() == Set::<int>::empty(),
            w.outputs() == Seq::<O>::empty(),
            w.origin() == Seq::<int>::empty(),
            w.error() is None,
    {
        Window {
            cap,
            total,
            chunked: true,
            chunk_end: 0,
            started: 0,
            in_flight: 0,
            outputs: Vec::new(),
            error: None,
            running: Ghost(Set::empty()),
            origin: Ghost(Seq::empty()),
        }
    }

    /// Hands out the next input to start, where one may start now.
    pub fn start_next(&mut self) -> (r: Option<usize>)
        requires
            old(self).wf(),
        ensures
            final(self).wf(),
            final(self).in_flight() <= final(self).cap(),
            final(self).cap() == old(self).cap(),
            final(self).total() == old(self).total(),
            final(self).is_chunked() == old(self).is_chunked(),
            final(self).outputs() == old(self).outputs(),
            final(self).origin() == old(self).origin(),
            final(self).error() == old(self).error(),
            ({
                let can = old(self).may_start();
                &&& can ==> r == Some(old(self).started() as usize)
                    && final(self).started() == old(self).started() + 1
                    && final(self).running() == old(self).running().insert(
                    old(self).started() as int,
                )
                &&& !can ==> r is None && final(self).started() == old(self).started()
                    && final(self).running() == old(self).running()
                    && final(self).chunk_end() == old(self).chunk_end()
                &&& can && old(self).is_chunked() && old(self).started() == old(self).chunk_end()
                    ==> final(self).chunk_end() == (if old(self).total() - old(self).started()
                    < old(self).cap() {
                    old(self).total()
                } else {
                    old(self).started() + old(self).cap()
                })
                &&& can && !(old(self).is_chunked() && old(self).started() == old(self).chunk_end())
                    ==> final(self).chunk_end() == old(self).chunk_end()
            }),
    {
        let room = if self.chunked {
            self.started < self.chunk_end || self.in_flight == 0
        } else {
            self.in_flight < self.cap
        };
        if self.error.is_none() && self.started < self.total && room {
            if self.chunked && self.started == self.chunk_end {
                self.chunk_end = if self.total - self.started < self.cap {
                    self.total
                } else {
                    self.started + self.cap
                };
            }
            let i = self.started;
            proof {
                assert(!self.running@.contains(i as int));
                self.running@ = self.running@.insert(i as int);
            }
            self.started = self.started + 1;
            self.in_flight = self.in_flight + 1;
            Some(i)
        } else {
            None
        }
    }

    /// Records that the operation on input `index` ended with `outcome`.
    /// Before any failure a value is kept and an error becomes the batch's
    /// error; after one, the outcome is dropped: the first error stays.
    pub fn complete(&mut self, index: usize, outcome: Outcome<O, E>)
        requires
            old(self).wf(),
            old(self).running().contains(index as int),
        ensures
            final(self).wf(),
            final(self).cap() == old(self).cap(),
            final(self).total() == old(self).total(),
            final(self).is_chunked() == old(self).is_chunked(),
            final(self).chunk_end() == old(self).chunk_end(),
            final(self).started() == old(self).started(),
            final(self).running() == old(self).running().remove(index as int),
            old(self).error() is Some ==> final(self).error() == old(self).error()
                && final(self).outputs() == old(self).outputs() && final(self).origin()
                == old(self).origin(),
            old(self).error() is None ==> match outcome {
                Outcome::Done(v) => final(self).error() is None && final(self).outputs()
                    == old(self).outputs().push(v) && final(self).origin() == old(
                    self,
                ).origin().push(index as int),
                Outcome::Failed(e) => final(self).error() == Some(RunError::<E>::Failed(e))
                    && final(self).outputs() == old(self).outputs() && final(self).origin()
                    == old(self).origin(),
                Outcome::Crashed => final(self).error() == Some(RunError::<E>::Crashed)
                    && final(self).outputs() == old(self).outputs() && final(self).origin()
                    == old(self).origin(),
            },
    {
        proof {
            self.running@ = self.running@.remove(index as int);
        }
        self.in_flight = self.in_flight - 1;
        if self.error.is_none() {
            match outcome {
                Outcome::Done(v) => {
                    self.outputs.push(v);
                    proof {
                        let old_origin = self.origin@;
                        self.origin@ = self.origin@.push(index as int);
                        assert forall|i: int| 0 <= i < self.started implies (
                        self.running@.contains(i) || self.origin@.contains(i)) by {
                            if i == index as int {
                                assert(self.origin@[old_origin.len() as int] == i);
                            } else if old_origin.contains(i) {
                                let k = choose|k: int| 0 <= k < old_origin.len() && old_origin[k] == i;
                                assert(self.origin@[k] == i);
                            }
                        }
                    }
                },
                Outcome::Failed(e) => {
                    self.error = Some(RunError::Failed(e));
                },
                Outcome::Crashed => {
                    self.error = Some(RunError::Crashed);
                },
            }
        }
    }

    /// Whether the batch is over: nothing in flight, and either every input
    /// was handed out or an operation failed.
    pub fn is_finished(&self) -> (r: bool)
        requires
            self.wf(),
        ensures
            r == (self.in_flight() == 0 && (self.error() is Some || self.started()
                == self.total())),
    {
        self.in_flight == 0 && (self.error.is_some() || self.started == self.total)
    }

    /// The batch's result: every kept value, or the first error.
    pub fn into_result(self) -> (r: Result<Vec<O>, RunError<E>>)
        requires
            self.wf(),
            self.in_flight() == 0,
            self.error() is Some || self.started() == self.total(),
        ensures
            match self.error() {
                Some(e) => r == Err::<Vec<O>, RunError<E>>(e),
                None => r is Ok && r->Ok_0@ == self.outputs() && self.origin().no_duplicates()
                    && self.origin().to_set() == index_range(self.total() as int)
                    && self.outputs().len() == self.total(),
            },
    {
        proof {
            if self.error is None {
                assert(self.origin@.to_set() =~= index_range(self.total as int)) by {
                    assert forall|i: int| #[trigger] index_range(self.total as int).contains(i) implies self.origin@.to_set().contains(i) by {
                        assert(!self.running@.contains(i));
                    }
                }
                self.origin@.unique_seq_to_set();
                lemma_range_len(self.total as int);
            }
        }
        match self.error {
            Some(e) => Err(e),
            None => Ok(self.outputs),
        }
    }
}


/// However inputs are started and completed, a well-formed window never has
/// more operations in flight than its cap.
pub proof fn lemma_in_flight_within_cap<O, E>(w: &Window<O, E>)
    requires
        w.wf(),
    ensures
        w.in_flight() <= w.cap(),
        w.started() <= w.total(),
{
}

/// When a batch ends with its results and each kept value is `f` of the
/// input it came from, the results are, as an unordered collection, exactly
/// `f` of each input once.
pub proof fn lemma_results_are_each_input_once<O>(
    outputs: Seq<O>,
    origin: Seq<int>,
    n: nat,
    f: spec_fn(int) -> O,
)
    requires
        origin.no_duplicates(),
        origin.to_set() == index_range(n as int),
        outputs.len() == origin.len(),
        forall|j: int| 0 <= j < outputs.len() ==> outputs[j] == f(#[trigger] origin[j]),
    ensures
        outputs.to_multiset() == Seq::new(n, |i: int| f(i)).to_multiset(),
    decreases n,
{
    broadcast use vstd::seq_lib::group_to_multiset_ensures;

    origin.unique_seq_to_set();
    lemma_range_len(n as int);
    if n == 0 {
        assert(outputs =~= Seq::<O>::empty());
        assert(Seq::new(n, |i: int| f(i)) =~= Seq::<O>::empty());
    } else {
        let last = n as int - 1;
        assert(index_range(n as int).contains(last));
        assert(origin.to_set().contains(last));
        let j = choose|j: int| 0 <= j < origin.len() && origin[j] == last;
        let rest_origin = origin.remove(j);
        let rest_outputs = outputs.remove(j);
        assert(rest_origin.no_duplicates()) by {
            assert forall|a: int, b: int|
                0 <= a < rest_origin.len() && 0 <= b < rest_origin.len() && a != b
                implies rest_origin[a] != rest_origin[b] by {
                let oa = if a < j { a } else { a + 1 };
                let ob = if b < j { b } else { b + 1 };
                assert(rest_origin[a] == origin[oa]);
                assert(rest_origin[b] == origin[ob]);
            }
        }
        assert(rest_origin.to_set() =~= index_range(last)) by {
            assert forall|x: int| rest_origin.to_set().contains(x) implies index_range(last).contains(x) by {
                let k = choose|k: int| 0 <= k < rest_origin.len() && rest_origin[k] == x;
                let ok = if k < j { k } else { k + 1 };
                assert(origin[ok] == x);
                assert(origin.to_set().contains(x));
                assert(ok != j);
            }
            assert forall|x: int| index_range(last).contains(x) implies rest_origin.to_set().contains(x) by {
                assert(index_range(n as int).contains(x));
                assert(origin.to_set().contains(x));
                let k = choose|k: int| 0 <= k < origin.len() && origin[k] == x;
                assert(k != j);
                let rk = if k < j { k } else { k - 1 };
                assert(rest_origin[rk] == x);
            }
        }
        assert forall|k: int| 0 <= k < rest_outputs.len() implies rest_outputs[k] == f(
            #[trigger] rest_origin[k],
        ) by {
            let ok = if k < j { k } else { k + 1 };
            assert(rest_outputs[k] == outputs[ok]);
            assert(rest_origin[k] == origin[ok]);
        }
        lemma_results_are_each_input_once(rest_outputs, rest_origin, (n - 1) as nat, f);
        assert(Seq::new(n, |i: int| f(i)) =~= Seq::new((n - 1) as nat, |i: int| f(i)).push(f(last)));
        assert(outputs[j] == f(last));
        assert(outputs.to_multiset().contains(outputs[j]));
        assert(outputs.to_multiset() =~= rest_outputs.to_multiset().insert(f(last)));
    }
}

proof fn lemma_range_len(n: int)
    requires
        n >= 0,
    ensures
        index_range(n).finite(),
        index_range(n).len() == n,
    decreases n,
{
    if n == 0 {
        assert(index_range(0) =~= Set::<int>::empty());
    } else {
        lemma_range_len(n - 1);
        assert(index_range(n) =~= index_range(n - 1).insert(n - 1));
    }
}

} // verus!
