//! The stack-ordered multi-value list.
//!
//! A [`MultiValue`] is an ordered list of guest values used uniformly for
//! call arguments and return values. Its logical order is front-to-back
//! (argument order), but the backing vector stores the values back-to-front
//! so that prepending — used when composing tuples right to left — is a
//! single push. The view of a `MultiValue` is always the logical
//! front-to-back sequence, whatever the storage order.
use vstd::prelude::*;
use crate::error::Error;
use crate::value::Value;

verus! {

/// Multiple guest values, used for both argument passing and multiple
/// return values.
pub struct MultiValue(pub(crate) Vec<Value>);

impl View for MultiValue {
    type V = Seq<Value>;

    /// The logical front-to-back sequence of values (the reverse of the
    /// backing storage).
    closed spec fn view(&self) -> Seq<Value> {
        Seq::new(self.0@.len(), |i: int| self.0@[self.0@.len() - 1 - i])
    }
}

/// All the listed conversion results are successes.
pub open spec fn refill_all_ok(items: Seq<Result<Value, Error>>) -> bool {
    forall|k: int| 0 <= k < items.len() ==> items[k] is Ok
}

/// The values carried by a sequence of successful conversion results.
pub open spec fn refill_values(items: Seq<Result<Value, Error>>) -> Seq<Value> {
    items.map_values(
        |it: Result<Value, Error>|
            match it {
                Ok(v) => v,
                Err(_) => Value::Nil,
            },
    )
}

impl MultiValue {
    /// Creates an empty list containing no values.
    pub fn new() -> (r: MultiValue)
        ensures
            r@ == Seq::<Value>::empty(),
    {
        let r = MultiValue(Vec::new());
        proof {
            assert(r@ =~= Seq::<Value>::empty());
        }
        r
    }

    /// Wraps a vector of values, keeping its front-to-back order.
    pub fn from_vec(v: Vec<Value>) -> (r: MultiValue)
        ensures
            r@ == v@,
    {
        let ghost orig = v@;
        let mut v = v;
        let mut inner: Vec<Value> = Vec::new();
        while v.len() > 0
            invariant
                v@.len() + inner@.len() == orig.len(),
                forall|i: int| 0 <= i < v@.len() ==> v@[i] == orig[i],
                forall|i: int|
                    0 <= i < inner@.len() ==> inner@[i] == orig[orig.len() - 1 - i],
            decreases v@.len(),
        {
            let x = v.pop().unwrap();
            inner.push(x);
        }
        let r = MultiValue(inner);
        proof {
            assert(r@ =~= orig);
        }
        r
    }

    /// Unwraps the list into a vector in front-to-back order.
    pub fn into_vec(self) -> (r: Vec<Value>)
        ensures
            r@ == self@,
    {
        let ghost logical = self@;
        let mut inner = self.0;
        let mut out: Vec<Value> = Vec::new();
        while inner.len() > 0
            invariant
                inner@.len() + out@.len() == logical.len(),
                forall|i: int|
                    0 <= i < inner@.len() ==> inner@[i] == logical[logical.len() - 1 - i],
                forall|i: int| 0 <= i < out@.len() ==> out@[i] == logical[i],
            decreases inner@.len(),
        {
            let x = inner.pop().unwrap();
            out.push(x);
        }
        proof {
            assert(out@ =~= logical);
        }
        out
    }

    /// Returns the value at a logical front-to-back position, if any.
    pub fn get(&self, index: usize) -> (r: Option<&Value>)
        ensures
            match r {
                Some(v) => index < self@.len() && *v == self@[index as int],
                None => index >= self@.len(),
            },
    {
        if index < self.0.len() {
            Some(&self.0[self.0.len() - index - 1])
        } else {
            None
        }
    }

    /// Removes and returns the front value; an empty list yields nothing
    /// and is left unchanged.
    pub fn pop_front(&mut self) -> (r: Option<Value>)
        ensures
            match r {
                Some(v) => {
                    &&& old(self)@.len() > 0
                    &&& v == old(self)@[0]
                    &&& final(self)@ == old(self)@.drop_first()
                },
                None => {
                    &&& old(self)@.len() == 0
                    &&& final(self)@ == old(self)@
                },
            },
    {
        let r = self.0.pop();
        proof {
            if old(self)@.len() > 0 {
                assert(self@ =~= old(self)@.drop_first());
            } else {
                assert(self@ =~= old(self)@);
            }
        }
        r
    }

    /// Prepends a value at the logical front.
    pub fn push_front(&mut self, value: Value)
        ensures
            final(self)@ == seq![value] + old(self)@,
    {
        self.0.push(value);
        proof {
            assert(self@ =~= seq![value] + old(self)@);
        }
    }

    /// Removes every value.
    pub fn clear(&mut self)
        ensures
            final(self)@ == Seq::<Value>::empty(),
    {
        self.0.clear();
        proof {
            assert(self@ =~= Seq::<Value>::empty());
        }
    }

    /// Number of values in the list.
    pub fn len(&self) -> (r: usize)
        ensures
            r == self@.len(),
    {
        self.0.len()
    }

    /// Whether the list holds no value.
    pub fn is_empty(&self) -> (r: bool)
        ensures
            r == (self@.len() == 0),
    {
        self.0.is_empty()
    }

    /// The values in logical front-to-back order, cloned into a fresh
    /// vector.
    pub fn iter(&self) -> (r: Vec<Value>)
        ensures
            r@ == self@,
    {
        let n = self.0.len();
        let mut out: Vec<Value> = Vec::new();
        let mut i: usize = 0;
        while i < n
            invariant
                n == self.0@.len(),
                i <= n,
                out@.len() == i,
                forall|k: int| 0 <= k < i ==> out@[k] == self@[k],
            decreases n - i,
        {
            out.push(self.0[n - i - 1].clone());
            i = i + 1;
        }
        proof {
            assert(out@ =~= self@);
        }
        out
    }

    /// Removes and returns every value, in logical front-to-back order.
    pub fn drain_all(&mut self) -> (r: Vec<Value>)
        ensures
            r@ == old(self)@,
            final(self)@ == Seq::<Value>::empty(),
    {
        let ghost logical = self@;
        let mut out: Vec<Value> = Vec::new();
        while self.0.len() > 0
            invariant
                self.0@.len() + out@.len() == logical.len(),
                forall|i: int|
                    0 <= i < self.0@.len()
                        ==> self.0@[i] == logical[logical.len() - 1 - i],
                forall|i: int| 0 <= i < out@.len() ==> out@[i] == logical[i],
            decreases self.0@.len(),
        {
            let x = self.0.pop().unwrap();
            out.push(x);
        }
        proof {
            assert(out@ =~= logical);
            assert(self@ =~= Seq::<Value>::empty());
        }
        out
    }

    /// Clears the list and repopulates it from a list of fallible
    /// conversion results: on success the list holds exactly the converted
    /// values front-to-back; on failure the first error is reported and
    /// the list is left empty.
    #[verifier::loop_isolation(false)]
    pub fn refill(&mut self, mut items: Vec<Result<Value, Error>>) -> (r: Result<(), Error>)
        ensures
            match r {
                Ok(()) => {
                    &&& refill_all_ok(items@)
                    &&& final(self)@ == refill_values(items@)
                },
                Err(e) => {
                    &&& exists|k: int|
                        {
                            &&& 0 <= k < items@.len()
                            &&& #[trigger] items@[k] is Err
                            &&& items@[k] matches Err(e0) && e == e0
                            &&& forall|j: int| 0 <= j < k ==> items@[j] is Ok
                        }
                    &&& final(self)@ == Seq::<Value>::empty()
                },
            },
    {
        self.0.clear();
        let ghost all = items@;
        // Reverse once so that values can be moved out in forward order.
        let mut rev: Vec<Result<Value, Error>> = Vec::new();
        let total: usize = items.len();
        while items.len() > 0
            invariant
                items@.len() + rev@.len() == all.len(),
                forall|i: int| 0 <= i < items@.len() ==> items@[i] == all[i],
                forall|i: int| 0 <= i < rev@.len() ==> rev@[i] == all[all.len() - 1 - i],
            decreases items@.len(),
        {
            let x = items.pop().unwrap();
            rev.push(x);
        }
        // Collect the converted values in forward order, stopping at the
        // first failure.
        let mut tmp: Vec<Value> = Vec::new();
        let mut done_count: usize = 0;
        while rev.len() > 0
            invariant
                total == all.len(),
                done_count + rev@.len() == all.len(),
                forall|i: int| 0 <= i < rev@.len() ==> rev@[i] == all[all.len() - 1 - i],
                forall|j: int| 0 <= j < done_count ==> all[j] is Ok,
                tmp@.len() == done_count,
                forall|i: int|
                    0 <= i < done_count ==> tmp@[i] == refill_values(all)[i],
                self.0@.len() == 0,
            decreases rev@.len(),
        {
            let x = rev.pop().unwrap();
            proof {
                assert(x == all[done_count as int]);
            }
            match x {
                Ok(v) => {
                    proof {
                        assert(refill_values(all)[done_count as int] == v);
                    }
                    tmp.push(v);
                    done_count = done_count + 1;
                },
                Err(e) => {
                    proof {
                        assert(self@ =~= Seq::<Value>::empty());
                        assert(exists|k: int|
                            {
                                &&& 0 <= k < all.len()
                                &&& #[trigger] all[k] is Err
                                &&& all[k] matches Err(e0) && e == e0
                                &&& forall|j: int| 0 <= j < k ==> all[j] is Ok
                            }) by {
                            assert(all[done_count as int] is Err);
                            assert(all[done_count as int] matches Err(e0) && e == e0);
                            assert(forall|j: int| 0 <= j < done_count ==> all[j] is Ok);
                        }
                    }
                    return Err(e);
                },
            }
        }
        // Move the collected values into the reversed backing storage.
        let ghost vals = refill_values(all);
        while tmp.len() > 0
            invariant
                tmp@.len() + self.0@.len() == vals.len(),
                forall|i: int| 0 <= i < tmp@.len() ==> tmp@[i] == vals[i],
                forall|i: int|
                    0 <= i < self.0@.len() ==> self.0@[i] == vals[vals.len() - 1 - i],
            decreases tmp@.len(),
        {
            let x = tmp.pop().unwrap();
            self.0.push(x);
        }
        proof {
            assert(self@ =~= refill_values(all));
        }
        Ok(())
    }
}


} // verus!
