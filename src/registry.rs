use crate::signer::Signer;
use vstd::prelude::*;

verus! {

/// A named pool and the signers derived for it.
#[derive(Debug)]
pub struct Pool {
    pub name: String,
    pub signers: Vec<Signer>,
}

/// Whether no two pools of `s` share a name.
pub open spec fn unique_names(s: Seq<Pool>) -> bool {
    forall|i: int, j: int| 0 <= i < j < s.len() ==> s[i].name@ != s[j].name@
}

/// Whether some pool of `s` has this name.
pub open spec fn has_pool(s: Seq<Pool>, name: Seq<char>) -> bool {
    exists|i: int| 0 <= i < s.len() && (#[trigger] s[i]).name@ == name
}

/// The addresses of every signer of every pool, pool by pool in order.
pub open spec fn addresses_of(s: Seq<Pool>) -> Seq<Seq<u8>>
    decreases s.len(),
{
    if s.len() == 0 {
        Seq::empty()
    } else {
        addresses_of(s.drop_last()) + s.last().signers@.map_values(|g: Signer| g.address@)
    }
}

/// The signer sets of one provisioning run, keyed by pool name, in the order
/// the pools were added. A name appears at most once.
#[derive(Debug)]
pub struct AgentRegistry {
    pools: Vec<Pool>,
}

impl View for AgentRegistry {
    type V = Seq<Pool>;

    closed spec fn view(&self) -> Seq<Pool> {
        self.pools@
    }
}

impl AgentRegistry {
    pub open spec fn wf(&self) -> bool {
        unique_names(self@)
    }

    pub fn new() -> (r: AgentRegistry)
        ensures
            r@ == Seq::<Pool>::empty(),
            r.wf(),
    {
        AgentRegistry { pools: Vec::new() }
    }

    /// Whether a pool of this name is registered.
    pub fn has(&self, name: &String) -> (r: bool)
        ensures
            r == has_pool(self@, name@),
    {
        let mut i: usize = 0;
        while i < self.pools.len()
            invariant
                i <= self.pools@.len(),
                forall|k: int| 0 <= k < i ==> (#[trigger] self.pools@[k]).name@ != name@,
            decreases self.pools@.len() - i,
        {
            if self.pools[i].name == *name {
                assert(self@[i as int].name@ == name@);
                return true;
            }
            i = i + 1;
        }
        false
    }

    /// Registers a pool's signers under its name; a name that is already
    /// registered keeps its first signers and the call changes nothing.
    pub fn add(&mut self, name: String, signers: Vec<Signer>)
        requires
            old(self).wf(),
        ensures
            final(self).wf(),
            has_pool(old(self)@, name@) ==> final(self)@ == old(self)@,
            !has_pool(old(self)@, name@) ==> final(self)@ == old(self)@.push(
                Pool { name, signers },
            ),
    {
        if !self.has(&name) {
            self.pools.push(Pool { name, signers });
            assert forall|i: int, j: int|
                0 <= i < j < self.pools@.len() implies self.pools@[i].name@
                != self.pools@[j].name@ by {
                if j == self.pools@.len() - 1 {
                    assert(self.pools@[i] == old(self)@[i]);
                }
            }
        }
    }

    /// The number of registered pools.
    pub fn len(&self) -> (r: usize)
        ensures
            r == self@.len(),
    {
        self.pools.len()
    }

    /// The pool at a position in registration order.
    pub fn pool(&self, i: usize) -> (r: &Pool)
        requires
            i < self@.len(),
        ensures
            *r == self@[i as int],
    {
        &self.pools[i]
    }

    /// The addresses of every registered signer, pool by pool.
    pub fn all_addresses(&self) -> (r: Vec<Vec<u8>>)
        ensures
            r@.map_values(|a: Vec<u8>| a@) == addresses_of(self@),
    {
        let mut r: Vec<Vec<u8>> = Vec::new();
        let mut i: usize = 0;
        while i < self.pools.len()
            invariant
                i <= self.pools@.len(),
                r@.map_values(|a: Vec<u8>| a@) == addresses_of(self.pools@.take(i as int)),
            decreases self.pools@.len() - i,
        {
            let ghost base = r@.map_values(|a: Vec<u8>| a@);
            let signers = &self.pools[i].signers;
            let mut j: usize = 0;
            while j < signers.len()
                invariant
                    j <= signers@.len(),
                    r@.map_values(|a: Vec<u8>| a@) == base + signers@.take(j as int).map_values(
                        |g: Signer| g.address@,
                    ),
                decreases signers@.len() - j,
            {
                let ghost prev = r@;
                let a = signers[j].address.clone();
                assert(a@ =~= signers@[j as int].address@);
                r.push(a);
                assert(r@.map_values(|a: Vec<u8>| a@) =~= base + signers@.take(
                    j as int + 1,
                ).map_values(|g: Signer| g.address@)) by {
                    assert(r@ == prev.push(a));
                    assert(r@.map_values(|a: Vec<u8>| a@) =~= prev.map_values(|a: Vec<u8>| a@).push(
                        a@,
                    ));
                    assert(signers@.take(j as int + 1) =~= signers@.take(j as int).push(
                        signers@[j as int],
                    ));
                    assert(signers@.take(j as int + 1).map_values(|g: Signer| g.address@)
                        =~= signers@.take(j as int).map_values(|g: Signer| g.address@).push(a@));
                }
                j = j + 1;
            }
            assert(signers@.take(signers@.len() as int) =~= signers@);
            assert(self.pools@.take(i as int + 1).drop_last() =~= self.pools@.take(i as int));
            i = i + 1;
        }
        assert(self.pools@.take(self.pools@.len() as int) =~= self.pools@);
        r
    }
}

/// Registering a pool under a name that is already registered keeps the
/// first signers: after `add(n, a)` then `add(n, b)` the registry holds one
/// pool named `n`, with the signers `a`.
pub proof fn lemma_registry_keeps_first(
    r0: AgentRegistry,
    r1: AgentRegistry,
    r2: AgentRegistry,
    name: String,
    first: Vec<Signer>,
    second: Vec<Signer>,
)
    requires
        r0.wf(),
        !has_pool(r0@, name@),
        r1@ == r0@.push(Pool { name, signers: first }),
        has_pool(r1@, name@) ==> r2@ == r1@,
        !has_pool(r1@, name@) ==> r2@ == r1@.push(Pool { name, signers: second }),
    ensures
        has_pool(r2@, name@),
        r2@.last().signers == first,
        forall|i: int| 0 <= i < r2@.len() && (#[trigger] r2@[i]).name@ == name@ ==> i == r2@.len() - 1,
{
    assert(r1@[r1@.len() - 1].name@ == name@);
    assert forall|i: int| 0 <= i < r2@.len() && (#[trigger] r2@[i]).name@ == name@ implies i == r2@.len() - 1 by {
        if i < r2@.len() - 1 {
            assert(r0@[i] == r2@[i]);
            assert(has_pool(r0@, name@));
        }
    }
}

} // verus!
