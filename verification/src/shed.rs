use vstd::prelude::*;

use crate::errors::Error;
use crate::sheep::Sheep;
use crate::sheep::Tattoo;

verus! {

/// Some sheep in `s` wears the tattoo `t`.
pub open spec fn has_tattoo(s: Seq<Sheep>, t: u64) -> bool {
    exists|j: int| 0 <= j < s.len() && s[j].tattoo.0 == t
}

/// No two sheep in `s` wear the same tattoo.
pub open spec fn distinct_tattoos(s: Seq<Sheep>) -> bool {
    forall|a: int, b: int| 0 <= a < b < s.len() ==> s[a].tattoo.0 != s[b].tattoo.0
}

/// The contract of a sheep shed: a store of sheep keyed by their tattoos.
///
/// A shed's state is the sequence of sheep it holds, in the order they came
/// in. Adding refuses a duplicated tattoo, killing refuses an absent one, and
/// any operation may instead fail with the backend's own
/// [`Error::GenericError`], leaving the flock unchanged.
pub trait SheepShed: Sized {
    /// The shed is in a state its operations may be called in.
    spec fn wf(&self) -> bool;

    /// The sheep the shed holds.
    spec fn flock(&self) -> Seq<Sheep>;

    /// A well-formed shed never holds two sheep with one tattoo.
    proof fn wf_implies_distinct(&self)
        requires
            self.wf(),
        ensures
            distinct_tattoos(self.flock()),
    ;

    /// Add a new [`Sheep`] to the shed.
    ///
    /// It is not allowed to add a duplicated sheep: adding one whose tattoo is
    /// already worn fails with [`Error::SheepDuplicationError`] and changes
    /// nothing.
    fn add_sheep(&mut self, sheep: Sheep) -> (r: Result<(), Error>)
        requires
            old(self).wf(),
        ensures
            final(self).wf(),
            match r {
                Ok(()) => !has_tattoo(old(self).flock(), sheep.tattoo.0) && final(self).flock()
                    == old(self).flock().push(sheep),
                Err(Error::SheepDuplicationError(t)) => t == sheep.tattoo && has_tattoo(
                    old(self).flock(),
                    sheep.tattoo.0,
                ) && final(self).flock() == old(self).flock(),
                Err(Error::GenericError(_)) => final(self).flock() == old(self).flock(),
                Err(Error::SheepNotPresent(_)) => false,
            },
    ;

    /// The number of sheep in the shed.
    fn sheep_count(&self) -> (r: Result<usize, Error>)
        requires
            self.wf(),
        ensures
            match r {
                Ok(c) => c == self.flock().len(),
                Err(Error::GenericError(_)) => true,
                Err(_) => false,
            },
    ;

    /// All the sheep in the shed, in the shed's own order.
    fn sheep_iter(&self) -> (r: Result<Vec<Sheep>, Error>)
        requires
            self.wf(),
        ensures
            match r {
                Ok(v) => v@ == self.flock(),
                Err(Error::GenericError(_)) => true,
                Err(_) => false,
            },
    ;

    /// Kill an unlucky sheep: remove it from the shed and return its body.
    ///
    /// It is not allowed to kill an inexistent sheep: killing by a tattoo
    /// nobody wears fails with [`Error::SheepNotPresent`] and changes nothing.
    fn kill_sheep(&mut self, tattoo: &Tattoo) -> (r: Result<Sheep, Error>)
        requires
            old(self).wf(),
        ensures
            final(self).wf(),
            match r {
                Ok(s) => s.tattoo == *tattoo && exists|j: int|
                    {
                        &&& 0 <= j < old(self).flock().len()
                        &&& old(self).flock()[j] == s
                        &&& final(self).flock() == old(self).flock().remove(j)
                    },
                Err(Error::SheepNotPresent(t)) => t == *tattoo && !has_tattoo(
                    old(self).flock(),
                    tattoo.0,
                ) && final(self).flock() == old(self).flock(),
                Err(Error::GenericError(_)) => final(self).flock() == old(self).flock(),
                Err(Error::SheepDuplicationError(_)) => false,
            },
    ;
}

/// Uniqueness. After an add that succeeded — which by [`SheepShed::add_sheep`]'s
/// contract it does exactly when the tattoo was absent — the tattoo is worn, so a
/// second add of it must return [`Error::SheepDuplicationError`]; and the flock
/// holds exactly one sheep wearing it, the one just added.
pub proof fn lemma_uniqueness(flock: Seq<Sheep>, sheep: Sheep)
    requires
        distinct_tattoos(flock),
        !has_tattoo(flock, sheep.tattoo.0),
    ensures
        has_tattoo(flock.push(sheep), sheep.tattoo.0),
        distinct_tattoos(flock.push(sheep)),
        forall|j: int|
            0 <= j < flock.push(sheep).len() && (#[trigger] flock.push(sheep)[j]).tattoo.0
                == sheep.tattoo.0 ==> j == flock.len(),
{
    let f = flock.push(sheep);
    assert(f[flock.len() as int] == sheep);
    assert forall|j: int|
        0 <= j < f.len() && (#[trigger] f[j]).tattoo.0 == sheep.tattoo.0 implies j
        == flock.len() by {
        if j < flock.len() {
            assert(flock[j] == f[j]);
        }
    }
    assert forall|a: int, b: int| 0 <= a < b < f.len() implies f[a].tattoo.0 != f[b].tattoo.0 by {
        if b < flock.len() {
        } else {
            assert(f[b] == sheep);
            assert(f[a] == flock[a]);
        }
    }
}

/// Existence. After a kill that succeeded — which by [`SheepShed::kill_sheep`]'s
/// contract removes the sheep at some index wearing the tattoo — no sheep wears
/// that tattoo any more, so killing it again must return
/// [`Error::SheepNotPresent`]; and by the same contract a kill on a tattoo
/// nobody wears returns [`Error::SheepNotPresent`] in the first place.
pub proof fn lemma_existence(flock: Seq<Sheep>, j: int)
    requires
        distinct_tattoos(flock),
        0 <= j < flock.len(),
    ensures
        !has_tattoo(flock.remove(j), flock[j].tattoo.0),
{
    flock.remove_ensures(j);
    let t = flock[j].tattoo.0;
    let f = flock.remove(j);
    assert forall|a: int| 0 <= a < f.len() implies f[a].tattoo.0 != t by {
        if a < j {
            assert(f[a] == flock[a]);
        } else {
            assert(f[a] == flock[a + 1]);
        }
    }
}

/// Remove the sheep wearing `t`, if any.
pub open spec fn remove_tattoo(s: Seq<Sheep>, t: u64) -> Seq<Sheep> {
    if has_tattoo(s, t) {
        let j = choose|j: int| 0 <= j < s.len() && s[j].tattoo.0 == t;
        s.remove(j)
    } else {
        s
    }
}

/// Remove, in order, the sheep wearing each listed tattoo.
pub open spec fn delete_all(s: Seq<Sheep>, dels: Seq<u64>) -> Seq<Sheep>
    decreases dels.len(),
{
    if dels.len() == 0 {
        s
    } else {
        delete_all(remove_tattoo(s, dels[0]), dels.drop_first())
    }
}

/// Removing a worn tattoo from a duplicate-free flock takes away exactly one
/// sheep, keeps the flock duplicate-free, and touches no other tattoo.
proof fn lemma_remove_tattoo(s: Seq<Sheep>, t: u64)
    requires
        distinct_tattoos(s),
        has_tattoo(s, t),
    ensures
        remove_tattoo(s, t).len() == s.len() - 1,
        distinct_tattoos(remove_tattoo(s, t)),
        forall|u: u64| u != t ==> has_tattoo(remove_tattoo(s, t), u) == has_tattoo(s, u),
{
    let j = choose|j: int| 0 <= j < s.len() && s[j].tattoo.0 == t;
    s.remove_ensures(j);
    let f = s.remove(j);
    assert forall|a: int, b: int| 0 <= a < b < f.len() implies f[a].tattoo.0 != f[b].tattoo.0 by {
        let oa = if a < j {
            a
        } else {
            a + 1
        };
        let ob = if b < j {
            b
        } else {
            b + 1
        };
        assert(f[a] == s[oa] && f[b] == s[ob]);
    }
    assert forall|u: u64| u != t implies has_tattoo(f, u) == has_tattoo(s, u) by {
        if has_tattoo(s, u) {
            let k = choose|k: int| 0 <= k < s.len() && s[k].tattoo.0 == u;
            if k < j {
                assert(f[k] == s[k]);
            } else {
                assert(k != j);
                assert(f[k - 1] == s[k]);
            }
            assert(has_tattoo(f, u));
        }
        if has_tattoo(f, u) {
            let k = choose|k: int| 0 <= k < f.len() && f[k].tattoo.0 == u;
            if k < j {
                assert(f[k] == s[k]);
            } else {
                assert(f[k] == s[k + 1]);
            }
            assert(has_tattoo(s, u));
        }
    }
}

/// Count consistency. Starting from a duplicate-free flock of N sheep — which
/// is what N distinct successful adds leave, each one a push by
/// [`SheepShed::add_sheep`]'s contract — deleting M distinct tattoos that are
/// all worn leaves exactly N − M sheep, so [`SheepShed::sheep_count`] then
/// reports N − M.
pub proof fn lemma_count_consistency(flock: Seq<Sheep>, dels: Seq<u64>)
    requires
        distinct_tattoos(flock),
        forall|a: int, b: int| 0 <= a < b < dels.len() ==> dels[a] != dels[b],
        forall|a: int| 0 <= a < dels.len() ==> has_tattoo(flock, #[trigger] dels[a]),
    ensures
        delete_all(flock, dels).len() == flock.len() - dels.len(),
    decreases dels.len(),
{
    if dels.len() > 0 {
        let t = dels[0];
        lemma_remove_tattoo(flock, t);
        let f1 = remove_tattoo(flock, t);
        let rest = dels.drop_first();
        assert forall|a: int| 0 <= a < rest.len() implies has_tattoo(f1, #[trigger] rest[a]) by {
            assert(rest[a] == dels[a + 1]);
            assert(dels[a + 1] != dels[0]);
        }
        lemma_count_consistency(f1, rest);
    }
}

/// Find the index of the sheep wearing `t`, if any.
fn find_tattoo(v: &Vec<Sheep>, t: u64) -> (r: Option<usize>)
    ensures
        match r {
            Some(j) => j < v@.len() && v@[j as int].tattoo.0 == t,
            None => !has_tattoo(v@, t),
        },
{
    let mut j: usize = 0;
    while j < v.len()
        invariant
            j <= v@.len(),
            forall|a: int| 0 <= a < j ==> v@[a].tattoo.0 != t,
        decreases v@.len() - j,
    {
        if v[j].tattoo.0 == t {
            return Some(j);
        }
        j = j + 1;
    }
    None
}

/// A [`SheepShed`] held in memory, for tests and for single-process use.
#[derive(Debug, Clone)]
pub struct MemorySheepShed(Vec<Sheep>);

impl Default for MemorySheepShed {
    /// An empty shed.
    fn default() -> (r: Self)
        ensures
            r.wf(),
            r.flock() == Seq::<Sheep>::empty(),
    {
        MemorySheepShed(Vec::new())
    }
}

impl SheepShed for MemorySheepShed {
    closed spec fn wf(&self) -> bool {
        distinct_tattoos(self.0@)
    }

    closed spec fn flock(&self) -> Seq<Sheep> {
        self.0@
    }

    proof fn wf_implies_distinct(&self) {
    }

    /// Adding succeeds exactly when the tattoo is fresh; the memory shed
    /// never fails generically.
    fn add_sheep(&mut self, sheep: Sheep) -> (r: Result<(), Error>)
        ensures
            r is Ok <==> !has_tattoo(old(self).flock(), sheep.tattoo.0),
            r is Err ==> r matches Err(Error::SheepDuplicationError(_)),
    {
        match find_tattoo(&self.0, sheep.tattoo.0) {
            Some(_) => Err(Error::SheepDuplicationError(sheep.tattoo)),
            None => {
                let ghost old_flock = self.0@;
                self.0.push(sheep);
                proof {
                    assert forall|a: int, b: int|
                        0 <= a < b < self.0@.len() implies self.0@[a].tattoo.0
                        != self.0@[b].tattoo.0 by {
                        if b < old_flock.len() {
                        } else {
                            assert(self.0@[b] == sheep);
                            assert(!has_tattoo(old_flock, sheep.tattoo.0));
                            assert(self.0@[a] == old_flock[a]);
                        }
                    }
                }
                Ok(())
            },
        }
    }

    /// Counting never fails in memory.
    fn sheep_count(&self) -> (r: Result<usize, Error>)
        ensures
            r is Ok,
    {
        Ok(self.0.len())
    }

    /// Listing never fails in memory, and returns the flock in insertion
    /// order.
    fn sheep_iter(&self) -> (r: Result<Vec<Sheep>, Error>)
        ensures
            r is Ok,
    {
        let mut out: Vec<Sheep> = Vec::new();
        let mut j: usize = 0;
        while j < self.0.len()
            invariant
                j <= self.0@.len(),
                out@ =~= self.0@.take(j as int),
            decreases self.0@.len() - j,
        {
            out.push(self.0[j]);
            j = j + 1;
        }
        proof {
            assert(out@ =~= self.0@);
        }
        Ok(out)
    }

    /// Killing succeeds exactly when some sheep wears the tattoo; the memory
    /// shed never fails generically.
    fn kill_sheep(&mut self, tattoo: &Tattoo) -> (r: Result<Sheep, Error>)
        ensures
            r is Ok <==> has_tattoo(old(self).flock(), tattoo.0),
            r is Err ==> r matches Err(Error::SheepNotPresent(_)),
    {
        match find_tattoo(&self.0, tattoo.0) {
            Some(j) => {
                let ghost old_flock = self.0@;
                let ghost gj = j as int;
                let s = self.0.remove(j);
                proof {
                    old_flock.remove_ensures(gj);
                    assert forall|a: int, b: int|
                        0 <= a < b < self.0@.len() implies self.0@[a].tattoo.0
                        != self.0@[b].tattoo.0 by {
                        let oa = if a < gj {
                            a
                        } else {
                            a + 1
                        };
                        let ob = if b < gj {
                            b
                        } else {
                            b + 1
                        };
                        assert(self.0@[a] == old_flock[oa]);
                        assert(self.0@[b] == old_flock[ob]);
                    }
                    assert(s.tattoo == *tattoo);
                    assert(0 <= gj < old(self).flock().len() && old(self).flock()[gj] == s
                        && self.flock() == old(self).flock().remove(gj));
                }
                Ok(s)
            },
            None => Err(Error::SheepNotPresent(*tattoo)),
        }
    }
}

} // verus!
