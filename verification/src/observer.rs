//! Listeners subscribed to kinds of events: subscribing, unsubscribing,
//! and which listeners an event reaches. Listeners are values the caller
//! invokes.
use vstd::prelude::*;
use vstd::std_specs::cmp::PartialEqSpec;

verus! {

/// Listeners by event kind, each list in the order of subscription.
pub struct Publisher<E, L> {
    events: Vec<(E, Vec<L>)>,
}

/// `i` is the first entry of `s` whose kind equals `e`.
pub open spec fn first_match<E: PartialEq, L>(s: Seq<(E, Vec<L>)>, e: E, i: int) -> bool {
    &&& 0 <= i < s.len()
    &&& s[i].0.eq_spec(&e)
    &&& forall|j: int| 0 <= j < i ==> !s[j].0.eq_spec(&e)
}

/// The listeners of kind `e`: those of its entry, none without one.
pub open spec fn listeners_of<E: PartialEq, L>(s: Seq<(E, Vec<L>)>, e: E) -> Seq<L> {
    if exists|i: int| first_match(s, e, i) {
        s[choose|i: int| first_match(s, e, i)].1@
    } else {
        Seq::empty()
    }
}

proof fn lemma_first_match_unique<E: PartialEq, L>(s: Seq<(E, Vec<L>)>, e: E, i: int, j: int)
    requires
        first_match(s, e, i),
        first_match(s, e, j),
    ensures
        i == j,
{
    if i < j {
        assert(!s[i].0.eq_spec(&e));
    } else if j < i {
        assert(!s[j].0.eq_spec(&e));
    }
}

impl<E: PartialEq, L: PartialEq + Copy> Publisher<E, L> {
    /// The entries, oldest kind first.
    pub closed spec fn entries(&self) -> Seq<(E, Vec<L>)> {
        self.events@
    }

    /// The listeners of kind `e`, in the order they subscribed.
    pub open spec fn subscribers(&self, e: E) -> Seq<L> {
        listeners_of(self.entries(), e)
    }

    /// No listeners at all.
    pub fn new() -> (r: Self)
        ensures
            r.entries().len() == 0,
    {
        Publisher { events: Vec::new() }
    }

    fn find(&self, event_type: &E) -> (r: Option<usize>)
        requires
            E::obeys_eq_spec(),
        ensures
            match r {
                Some(i) => first_match(self.entries(), *event_type, i as int),
                None => forall|j: int| 0 <= j < self.entries().len() ==> !(#[trigger] self.entries()[j]).0.eq_spec(
                    event_type,
                ),
            },
    {
        let mut i: usize = 0;
        while i < self.events.len()
            invariant
                E::obeys_eq_spec(),
                0 <= i <= self.events@.len(),
                forall|j: int| 0 <= j < i ==> !self.events@[j].0.eq_spec(event_type),
            decreases self.events@.len() - i,
        {
            if self.events[i].0.eq(event_type) {
                return Some(i);
            }
            i = i + 1;
        }
        None
    }

    /// Adds `listener` to the listeners of `event_type`, after those already
    /// there; a kind without an entry gets one, after the others.
    pub fn subscribe(&mut self, event_type: E, listener: L)
        requires
            E::obeys_eq_spec(),
            event_type.eq_spec(&event_type),
        ensures
            final(self).subscribers(event_type) == old(self).subscribers(event_type).push(listener),
            (exists|i: int| first_match(old(self).entries(), event_type, i)) ==> ({
                let i = choose|i: int| first_match(old(self).entries(), event_type, i);
                &&& final(self).entries().len() == old(self).entries().len()
                &&& forall|j: int| 0 <= j < old(self).entries().len() && j != i ==> #[trigger] final(self).entries()[j]
                    == old(self).entries()[j]
                &&& final(self).entries()[i].0 == old(self).entries()[i].0
            }),
            !(exists|i: int| first_match(old(self).entries(), event_type, i)) ==> ({
                &&& final(self).entries().len() == old(self).entries().len() + 1
                &&& forall|j: int| 0 <= j < old(self).entries().len() ==> #[trigger] final(self).entries()[j]
                    == old(self).entries()[j]
                &&& final(self).entries().last().0 == event_type
            }),
    {
        let ghost s0 = self.events@;
        let found = self.find(&event_type);
        proof {
            if found is None {
                assert forall|q: int| !first_match(s0, event_type, q) by {
                    if 0 <= q < s0.len() {
                        assert(!s0[q].0.eq_spec(&event_type));
                    }
                }
            }
        }
        match found {
            Some(i) => {
                let mut entries: Vec<(E, Vec<L>)> = Vec::new();
                std::mem::swap(&mut entries, &mut self.events);
                let (key, mut list) = entries.remove(i);
                list.push(listener);
                entries.insert(i, (key, list));
                self.events = entries;
                proof {
                    let s1 = self.events@;
                    assert(s1.len() == s0.len());
                    assert forall|j: int| 0 <= j < s1.len() && j != i implies s1[j] == s0[j] by {}
                    assert(first_match(s1, event_type, i as int));
                    assert forall|q: int| first_match(s1, event_type, q) implies q == i by {
                        lemma_first_match_unique(s1, event_type, i as int, q);
                    }
                    assert forall|q: int| first_match(s0, event_type, q) implies q == i by {
                        lemma_first_match_unique(s0, event_type, i as int, q);
                    }
                }
            },
            None => {
                let mut list: Vec<L> = Vec::new();
                list.push(listener);
                self.events.push((event_type, list));
                proof {
                    let s1 = self.events@;
                    let n = s0.len() as int;
                    assert forall|j: int| 0 <= j < n implies !s1[j].0.eq_spec(&event_type) by {
                        assert(s1[j] == s0[j]);
                        assert(!s0[j].0.eq_spec(&event_type));
                    }
                    assert(first_match(s1, event_type, n));
                    assert forall|q: int| first_match(s1, event_type, q) implies q == n by {
                        lemma_first_match_unique(s1, event_type, n, q);
                    }
                    assert(s1[n].1@ =~= Seq::<L>::empty().push(listener));
                    assert(listeners_of(s0, event_type) =~= Seq::<L>::empty());
                }
            },
        }
    }

    /// Takes `listener` off the listeners of `event_type`; a kind left
    /// without listeners loses its entry.
    pub fn unsubscribe(&mut self, event_type: &E, listener: L)
        requires
            E::obeys_eq_spec(),
            L::obeys_eq_spec(),
        ensures
            !(exists|i: int| first_match(old(self).entries(), *event_type, i)) ==> final(self).entries()
                == old(self).entries(),
            (exists|i: int| first_match(old(self).entries(), *event_type, i)) ==> ({
                let i = choose|i: int| first_match(old(self).entries(), *event_type, i);
                let kept = old(self).entries()[i].1@.filter(|x: L| !x.eq_spec(&listener));
                &&& kept.len() == 0 ==> final(self).entries() == old(self).entries().remove(i)
                &&& kept.len() > 0 ==> final(self).entries().len() == old(self).entries().len() && final(self).entries()[i].0 == old(self).entries()[i].0 && final(self).entries()[i].1@ == kept && forall|
                    j: int,
                | 0 <= j < old(self).entries().len() && j != i ==> #[trigger] final(self).entries()[j] == old(self).entries()[j]
            }),
    {
        let ghost s0 = self.events@;
        match self.find(event_type) {
            None => {
                proof {
                    assert forall|q: int| !first_match(s0, *event_type, q) by {
                        if 0 <= q < s0.len() {
                            assert(!s0[q].0.eq_spec(event_type));
                        }
                    }
                }
            },
            Some(i) => {
                proof {
                    assert forall|q: int| first_match(s0, *event_type, q) implies q == i by {
                        lemma_first_match_unique(s0, *event_type, i as int, q);
                    }
                }
                let mut entries: Vec<(E, Vec<L>)> = Vec::new();
                std::mem::swap(&mut entries, &mut self.events);
                let (key, list) = entries.remove(i);
                let ghost lv = list@;
                let mut kept: Vec<L> = Vec::new();
                let mut k: usize = 0;
                while k < list.len()
                    invariant
                        L::obeys_eq_spec(),
                        lv == list@,
                        0 <= k <= lv.len(),
                        kept@ == lv.subrange(0, k as int).filter(|x: L| !x.eq_spec(&listener)),
                    decreases lv.len() - k,
                {
                    let x = list[k];
                    proof {
                        assert(lv.subrange(0, k + 1).drop_last() =~= lv.subrange(0, k as int));
                        lv.subrange(0, k + 1).lemma_filter_len_push(|y: L| !y.eq_spec(&listener), x);
                        reveal(Seq::filter);
                    }
                    if !x.eq(&listener) {
                        kept.push(x);
                    }
                    proof {
                        assert(lv.subrange(0, k + 1) =~= lv.subrange(0, k as int).push(x));
                        assert(lv.subrange(0, k as int).push(x).filter(|y: L| !y.eq_spec(&listener))
                            =~= if !x.eq_spec(&listener) {
                            lv.subrange(0, k as int).filter(|y: L| !y.eq_spec(&listener)).push(x)
                        } else {
                            lv.subrange(0, k as int).filter(|y: L| !y.eq_spec(&listener))
                        });
                    }
                    k = k + 1;
                }
                proof {
                    assert(lv.subrange(0, lv.len() as int) =~= lv);
                }
                if kept.len() > 0 {
                    entries.insert(i, (key, kept));
                }
                self.events = entries;
                proof {
                    if kept@.len() > 0 {
                        assert forall|j: int| 0 <= j < s0.len() && j != i implies #[trigger] self.events@[j] == s0[j] by {}
                    } else {
                        assert(self.events@ =~= s0.remove(i as int));
                    }
                }
            },
        }
    }

    /// The listeners to call for an event of kind `event_type`, in the
    /// order they subscribed.
    pub fn notify(&self, event_type: &E) -> (r: Vec<L>)
        requires
            E::obeys_eq_spec(),
        ensures
            r@ == self.subscribers(*event_type),
    {
        match self.find(event_type) {
            Some(i) => {
                proof {
                    assert forall|q: int| first_match(self.entries(), *event_type, q) implies q == i by {
                        lemma_first_match_unique(self.entries(), *event_type, i as int, q);
                    }
                }
                let list = &self.events[i].1;
                let mut r: Vec<L> = Vec::new();
                let mut k: usize = 0;
                while k < list.len()
                    invariant
                        0 <= k <= list@.len(),
                        r@ == list@.subrange(0, k as int),
                    decreases list@.len() - k,
                {
                    r.push(list[k]);
                    proof {
                        assert(list@.subrange(0, k + 1) =~= list@.subrange(0, k as int).push(list@[k as int]));
                    }
                    k = k + 1;
                }
                proof {
                    assert(list@.subrange(0, list@.len() as int) =~= list@);
                }
                r
            },
            None => {
                proof {
                    assert forall|q: int| !first_match(self.entries(), *event_type, q) by {
                        if 0 <= q < self.entries().len() {
                            assert(!self.entries()[q].0.eq_spec(event_type));
                        }
                    }
                }
                Vec::new()
            },
        }
    }
}

/// An entry that matches has a first match.
proof fn lemma_some_first_match<E: PartialEq, L>(s: Seq<(E, Vec<L>)>, e: E, j: int)
    requires
        0 <= j < s.len(),
        s[j].0.eq_spec(&e),
    ensures
        exists|q: int| first_match(s, e, q),
    decreases j,
{
    if forall|k: int| 0 <= k < j ==> !s[k].0.eq_spec(&e) {
        assert(first_match(s, e, j));
    } else {
        let k = choose|k: int| 0 <= k < j && s[k].0.eq_spec(&e);
        lemma_some_first_match(s, e, k);
    }
}

} // verus!
