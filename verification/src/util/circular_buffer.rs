//! A fixed-capacity circular buffer.
//!
//! `head` is the slot of the oldest element and `tail` the slot the next
//! element goes to. A completely full buffer cannot keep `head == tail`
//! (that means empty), so filling the last slot parks `tail` at the
//! sentinel value `N + 1`. The sentinel is sticky: once the buffer has
//! been full, pushes keep failing even after elements are popped, and a
//! saturated buffer that has been emptied reports no element.

use vstd::prelude::*;

verus! {

/// Failure to push into a buffer that has been full.
#[derive(Clone, Copy, Debug, PartialEq, Eq, Structural)]
pub struct PushError;

/// A circular buffer of capacity `N`.
pub struct CircularBuffer<T, const N: usize> {
    array: Vec<Option<T>>,
    head: usize,
    tail: usize,
    count: Ghost<nat>,
}

impl<T, const N: usize> View for CircularBuffer<T, N> {
    type V = Seq<T>;

    /// The buffered elements, oldest first.
    closed spec fn view(&self) -> Seq<T> {
        Seq::new(self.count@, |i: int| self.array@[(self.head + i) % (N as int)].unwrap())
    }
}

impl<T, const N: usize> CircularBuffer<T, N> {
    /// Whether the buffer has ever been full. Pushes fail from then on.
    pub closed spec fn saturated(&self) -> bool {
        self.tail == N + 1
    }

    /// Internal soundness: the occupied slots are exactly the `count`
    /// slots from `head` onwards, and `tail` is either the next free slot
    /// or the sentinel.
    pub closed spec fn wf(&self) -> bool {
        &&& 1 <= N < usize::MAX
        &&& self.array.len() == N
        &&& self.head < N
        &&& (self.tail < N || self.tail == N + 1)
        &&& self.count@ <= N
        &&& (self.tail == N + 1 || (self.count@ < N && self.tail == (self.head + self.count@) % (
        N as int)))
        &&& forall|i: int|
            0 <= i < N ==> (#[trigger] self.array@[(self.head + i) % (N as int)] is Some <==> i
                < self.count@)
    }

    /// Whether the buffer has ever been full.
    pub fn is_saturated(&self) -> (r: bool)
        requires
            self.wf(),
        ensures
            r == self.saturated(),
    {
        self.tail == N + 1
    }

    /// An empty buffer.
    pub fn new() -> (r: Self)
        requires
            1 <= N < usize::MAX,
        ensures
            r.wf(),
            r@ == Seq::<T>::empty(),
            !r.saturated(),
    {
        let mut array: Vec<Option<T>> = Vec::new();
        let mut i: usize = 0;
        while i < N
            invariant
                array.len() == i,
                i <= N,
                forall|k: int| 0 <= k < i ==> array@[k] is None,
            decreases N - i,
        {
            array.push(None);
            i = i + 1;
        }
        let r = CircularBuffer { array, head: 0, tail: 0, count: Ghost(0) };
        proof {
            lemma_ring_zero(N as int, 0);
            assert forall|k: int| 0 <= k < N implies ((#[trigger] r.array@[(r.head + k) % (
            N as int)]) is Some <==> k < r.count@) by {
                assert((0 + k) % (N as int) == k) by (nonlinear_arith)
                    requires
                        0 <= k < N,
                ;
            }
            assert(r@ =~= Seq::<T>::empty());
        }
        r
    }

    /// Appends `item` at the tail; fails exactly when the buffer is
    /// saturated. Filling the last free slot saturates the buffer.
    pub fn push_back(&mut self, item: T) -> (r: Result<(), PushError>)
        requires
            old(self).wf(),
        ensures
            final(self).wf(),
            match r {
                Ok(()) => {
                    &&& !old(self).saturated()
                    &&& final(self)@ == old(self)@.push(item)
                    &&& (final(self).saturated() <==> old(self)@.len() == N - 1)
                },
                Err(_) => {
                    &&& old(self).saturated()
                    &&& final(self)@ == old(self)@
                    &&& final(self).saturated()
                },
            },
    {
        let insertion_index = self.tail;

        match self.increment_tail() {
            Some(tail) => {
                self.tail = tail;
            },
            None => {
                return Err(PushError);
            },
        }

        self.array[insertion_index] = Some(item);
        proof {
            self.count@ = self.count@ + 1;
        }

        proof {
            let n = N as int;
            let h = self.head as int;
            let c = old(self).count@ as int;
            assert(insertion_index == (h + c) % n);
            assert(self.array@ == old(self).array@.update((h + c) % n, Some(item)));
            lemma_ring_succ(n, h + c);
            lemma_ring_zero(n, h);
            if c + 1 < n {
                lemma_ring_index(n, h, c + 1, 0);
                assert((h + (c + 1)) % n != h);
            } else {
                assert((h + (c + 1)) % n == h) by (nonlinear_arith)
                    requires
                        c + 1 == n,
                        0 <= h < n,
                ;
            }
            assert forall|i: int| 0 <= i < N implies ((#[trigger] self.array@[(self.head + i)
                % n]) is Some <==> i < self.count@) by {
                lemma_ring_index(n, h, c, i);
                if i != c {
                    assert(self.array@[(h + i) % n] == old(self).array@[(h + i) % n]);
                    assert(old(self).array@[(h + i) % n] is Some <==> i < c);
                }
            }
            assert forall|i: int| 0 <= i < self.count@ implies self@[i] == old(self)@.push(
                item,
            )[i] by {
                lemma_ring_index(n, h, c, i);
                if i != c {
                    assert(self.array@[(h + i) % n] == old(self).array@[(h + i) % n]);
                }
            }
            assert(self@ =~= old(self)@.push(item));
        }
        Ok(())
    }

    /// Removes and returns the oldest element. An empty buffer returns
    /// nothing; saturation is not cleared.
    pub fn pop_front(&mut self) -> (r: Option<T>)
        requires
            old(self).wf(),
        ensures
            final(self).wf(),
            final(self).saturated() == old(self).saturated(),
            old(self)@.len() == 0 ==> r is None && final(self)@ == old(self)@,
            old(self)@.len() > 0 ==> r == Some(old(self)@[0]) && final(self)@ == old(
                self,
            )@.drop_first(),
    {
        let index = self.head;

        if self.head == self.tail {
            proof {
                assert(self.count@ == 0) by {
                    lemma_ring_zero(N as int, self.head as int);
                    if self.count@ > 0 {
                        lemma_ring_index(N as int, self.head as int, self.count@ as int, 0);
                    }
                }
            }
            return None;
        }

        proof {
            lemma_ring_zero(N as int, self.head as int);
            assert(index == (self.head + 0) % (N as int));
        }
        let slot = self.array.remove(index);
        self.array.insert(index, None);

        match slot {
            Some(value) => {
                proof {
                    assert(self.array@ =~= old(self).array@.update(index as int, None));
                }
                wrapping_increment(&mut self.head, N);
                proof {
                    let n = N as int;
                    let h = old(self).head as int;
                    let c = old(self).count@ as int;
                    lemma_ring_zero(n, h);
                    assert(old(self).array@[(h + 0) % n] is Some);
                    assert(c > 0);
                    self.count@ = (self.count@ - 1) as nat;
                    assert(self.head == (h + 1) % n);
                    assert forall|i: int| 0 <= i < N implies ((#[trigger] self.array@[(self.head
                        + i) % n]) is Some <==> i < self.count@) by {
                        lemma_ring_shift(n, h, c, i);
                        if i < n - 1 {
                            assert(self.array@[(h + (i + 1)) % n] == old(self).array@[(h + (i
                                + 1)) % n]);
                            assert(old(self).array@[(h + (i + 1)) % n] is Some <==> i + 1 < c);
                        } else {
                            assert(self.array@[(self.head + i) % n] is None);
                        }
                    }
                    if self.tail < N {
                        assert(self.tail == (self.head + self.count@) % n) by {
                            lemma_ring_tail(n, h, c);
                        }
                    }
                    assert forall|i: int| 0 <= i < self.count@ implies self@[i] == old(
                        self,
                    )@.drop_first()[i] by {
                        lemma_ring_shift(n, h, c, i);
                        assert(self.array@[(h + (i + 1)) % n] == old(self).array@[(h + (i + 1))
                            % n]);
                    }
                    assert(self@ =~= old(self)@.drop_first());
                }
                Some(value)
            },
            None => {
                proof {
                    let n = N as int;
                    let h = old(self).head as int;
                    lemma_ring_zero(n, h);
                    assert(old(self).array@[(h + 0) % n] is None);
                    assert(self.count@ == 0);
                    assert(self.array@ =~= old(self).array@);
                    assert(self@ =~= old(self)@);
                }
                None
            },
        }
    }

    /// Advances `tail` by one slot; when it catches up with `head` the
    /// buffer has become full and `tail` parks at the sentinel. Fails
    /// exactly when the buffer is already saturated.
    fn increment_tail(&mut self) -> (r: Option<usize>)
        requires
            1 <= N < usize::MAX,
            old(self).head < N,
            old(self).tail < N || old(self).tail == N + 1,
        ensures
            final(self).array == old(self).array,
            final(self).head == old(self).head,
            final(self).count == old(self).count,
            match r {
                Some(tail) => {
                    &&& old(self).tail < N
                    &&& final(self).tail == tail
                    &&& tail == if ((old(self).tail + 1) % (N as int)) == old(self).head {
                        (N + 1) as int
                    } else {
                        (old(self).tail + 1) % (N as int)
                    }
                },
                None => old(self).tail == N + 1 && final(self).tail == old(self).tail,
            },
    {
        if self.tail == N + 1 {
            return None;
        }

        wrapping_increment(&mut self.tail, N);

        if self.tail == self.head {
            self.tail = N + 1;
        }

        Some(self.tail)
    }
}

/// Steps `i` forward by one, wrapping at `container_size`.
pub fn wrapping_increment(i: &mut usize, container_size: usize)
    requires
        container_size >= 1,
        *old(i) < usize::MAX,
    ensures
        *final(i) == (*old(i) + 1) % (container_size as int),
{
    *i = (*i + 1) % container_size
}

/// Ring positions `h + i (mod n)` for `0 <= i < n` are distinct: position
/// `i` coincides with position `c` exactly when `i == c`.
proof fn lemma_ring_index(n: int, h: int, c: int, i: int)
    requires
        1 <= n,
        0 <= h < n,
        0 <= c < n,
        0 <= i < n,
    ensures
        ((h + i) % n == (h + c) % n) <==> i == c,
{
    assert(((h + i) % n == (h + c) % n) <==> i == c) by (nonlinear_arith)
        requires
            1 <= n,
            0 <= h < n,
            0 <= c < n,
            0 <= i < n,
    ;
}

/// After the head advances one slot, ring position `i` of the new window
/// is position `i + 1` of the old one, and the freed slot is the old
/// head.
proof fn lemma_ring_shift(n: int, h: int, c: int, i: int)
    requires
        1 <= n,
        0 <= h < n,
        0 <= i < n,
    ensures
        i < n - 1 ==> ((h + 1) % n + i) % n == (h + (i + 1)) % n,
        i < n - 1 ==> ((h + 1) % n + i) % n != h,
        i == n - 1 ==> ((h + 1) % n + i) % n == h,
{
    assert((i < n - 1 ==> ((h + 1) % n + i) % n == (h + (i + 1)) % n) && (i < n - 1 ==> ((h + 1)
        % n + i) % n != h) && (i == n - 1 ==> ((h + 1) % n + i) % n == h)) by (nonlinear_arith)
        requires
            1 <= n,
            0 <= h < n,
            0 <= i < n,
    ;
}

/// A ring of size `n` maps offset zero of the window at `h` to `h`.
proof fn lemma_ring_zero(n: int, h: int)
    requires
        1 <= n,
        0 <= h < n,
    ensures
        (h + 0) % n == h,
{
    assert((h + 0) % n == h) by (nonlinear_arith)
        requires
            1 <= n,
            0 <= h < n,
    ;
}

/// Stepping one slot past a reduced ring position lands where stepping
/// past the unreduced one does.
proof fn lemma_ring_succ(n: int, x: int)
    requires
        1 <= n,
        0 <= x,
    ensures
        (x % n + 1) % n == (x + 1) % n,
{
    assert((x % n + 1) % n == (x + 1) % n) by (nonlinear_arith)
        requires
            1 <= n,
            0 <= x,
    ;
}

/// The tail slot of a window is unchanged when the window loses its first
/// element: `h + c == (h + 1) + (c - 1)`.
proof fn lemma_ring_tail(n: int, h: int, c: int)
    requires
        1 <= n,
        0 <= h < n,
        1 <= c,
    ensures
        (h + c) % n == ((h + 1) % n + (c - 1)) % n,
{
    assert((h + c) % n == ((h + 1) % n + (c - 1)) % n) by (nonlinear_arith)
        requires
            1 <= n,
            0 <= h < n,
            1 <= c,
    ;
}

} // verus!
