use crate::error::ProvisionError;
use crate::registry::{has_pool, AgentRegistry, Pool};
use crate::signer::{
    address_from_text, derivable, derive_signers, derived_signers, key_address, key_text_address,
    parse_address,
};
use vstd::prelude::*;

verus! {

/// One transaction template of a scenario: an optional sender address, an
/// optional sender pool and an optional literal value.
#[derive(Clone, Debug, PartialEq, Eq)]
pub struct TxTemplate {
    pub from: Option<String>,
    pub from_pool: Option<String>,
    pub value: Option<String>,
}

/// The parts of a test configuration that provisioning reads: the one-time
/// setup transactions and the pool-creation steps.
#[derive(Clone, Debug, PartialEq, Eq)]
pub struct ScenarioConfig {
    pub setup: Vec<TxTemplate>,
    pub create: Vec<TxTemplate>,
}

/// The pool names that the templates of `s` reference, in order.
pub open spec fn referenced_pools(s: Seq<TxTemplate>) -> Seq<Seq<char>>
    decreases s.len(),
{
    if s.len() == 0 {
        Seq::empty()
    } else {
        referenced_pools(s.drop_last()) + match s.last().from_pool {
            Some(p) => seq![p@],
            None => Seq::empty(),
        }
    }
}

/// The pool declarations of a configuration: those of the setup phase, then
/// those of the pool-creation steps.
pub open spec fn declared_pools(c: ScenarioConfig) -> Seq<Seq<char>> {
    referenced_pools(c.setup@) + referenced_pools(c.create@)
}

/// The names of `s` with every repetition after the first dropped.
pub open spec fn first_occurrences(s: Seq<Seq<char>>) -> Seq<Seq<char>>
    decreases s.len(),
{
    if s.len() == 0 {
        Seq::empty()
    } else {
        let rest = first_occurrences(s.drop_last());
        if rest.contains(s.last()) {
            rest
        } else {
            rest.push(s.last())
        }
    }
}

/// The literal values that the setup transactions declare.
pub open spec fn setup_values(c: ScenarioConfig) -> Seq<Option<String>> {
    c.setup@.map_values(|t: TxTemplate| t.value)
}

/// Whether `reg` holds, for each name of `names` once and in that order, the
/// signers derived for it.
pub open spec fn registered_exactly(seed: Seq<u8>, names: Seq<Seq<char>>, count: nat, reg: Seq<Pool>) -> bool {
    &&& reg.len() == names.len()
    &&& forall|i: int|
        0 <= i < reg.len() ==> {
            &&& (#[trigger] reg[i]).name@ == names[i]
            &&& derived_signers(seed, names[i], count, reg[i].signers@)
        }
}

fn collect_pools(templates: &Vec<TxTemplate>, out: &mut Vec<String>)
    ensures
        final(out)@.map_values(|s: String| s@) == old(out)@.map_values(|s: String| s@)
            + referenced_pools(templates@),
{
    let ghost start = out@.map_values(|s: String| s@);
    let mut i: usize = 0;
    while i < templates.len()
        invariant
            i <= templates@.len(),
            out@.map_values(|s: String| s@) == start + referenced_pools(templates@.take(i as int)),
        decreases templates@.len() - i,
    {
        let ghost before = out@;
        assert(templates@.take(i as int + 1).drop_last() =~= templates@.take(i as int));
        match &templates[i].from_pool {
            Some(p) => {
                let name = p.clone();
                out.push(name);
                assert(out@.map_values(|s: String| s@) =~= before.map_values(|s: String| s@).push(
                    name@,
                ));
            },
            None => {},
        }
        assert(out@.map_values(|s: String| s@) =~= start + referenced_pools(
            templates@.take(i as int + 1),
        ));
        i = i + 1;
    }
    assert(templates@.take(templates@.len() as int) =~= templates@);
}

/// The pool names a configuration references: the setup phase's, then the
/// pool-creation steps', repetitions included.
pub fn pool_declarations(config: &ScenarioConfig) -> (r: Vec<String>)
    ensures
        r@.map_values(|s: String| s@) == declared_pools(*config),
{
    let mut r: Vec<String> = Vec::new();
    assert(r@.map_values(|s: String| s@) =~= Seq::<Seq<char>>::empty());
    collect_pools(&config.setup, &mut r);
    collect_pools(&config.create, &mut r);
    assert(Seq::<Seq<char>>::empty() + referenced_pools(config.setup@) =~= referenced_pools(
        config.setup@,
    ));
    r
}

proof fn lemma_first_occurrences_contains(s: Seq<Seq<char>>, x: Seq<char>)
    ensures
        first_occurrences(s).contains(x) <==> s.contains(x),
    decreases s.len(),
{
    if s.len() > 0 {
        let p = s.drop_last();
        lemma_first_occurrences_contains(p, x);
        if s.contains(x) && !p.contains(x) {
            assert(s.last() == x) by {
                let j = choose|j: int| 0 <= j < s.len() && s[j] == x;
                if j < p.len() {
                    assert(p[j] == x);
                }
            }
        }
        if p.contains(x) {
            let j = choose|j: int| 0 <= j < p.len() && p[j] == x;
            assert(s[j] == x);
        }
        let rest = first_occurrences(p);
        if !rest.contains(s.last()) {
            if rest.push(s.last()).contains(x) && !rest.contains(x) {
                let j = choose|j: int| 0 <= j < rest.len() + 1 && rest.push(s.last())[j] == x;
                if j < rest.len() {
                    assert(rest[j] == x);
                }
            }
            if rest.contains(x) {
                let j = choose|j: int| 0 <= j < rest.len() && rest[j] == x;
                assert(rest.push(s.last())[j] == x);
            }
            assert(rest.push(s.last())[rest.len() as int] == s.last());
        }
        if s.last() == x {
            assert(s[s.len() - 1] == x);
        }
    }
}

/// Derives `count` signers for every declared pool and registers each name
/// once, in order of first declaration. Fails, naming the pool, exactly when
/// some declared pool's derived keys are not valid.
pub fn register_pools(seed: &Vec<u8>, names: &Vec<String>, count: u64) -> (r: Result<
    AgentRegistry,
    ProvisionError,
>)
    ensures
        r is Ok <==> forall|i: int|
            0 <= i < names@.len() ==> derivable(seed@, (#[trigger] names@[i])@, count as nat),
        r matches Ok(reg) ==> reg.wf() && registered_exactly(
            seed@,
            first_occurrences(names@.map_values(|s: String| s@)),
            count as nat,
            reg@,
        ),
        r matches Err(e) ==> exists|i: int|
            0 <= i < names@.len() && !derivable(seed@, (#[trigger] names@[i])@, count as nat)
                && e == (ProvisionError::DerivationFailed { pool: names@[i] }),
{
    let ghost views = names@.map_values(|s: String| s@);
    let mut reg = AgentRegistry::new();
    let mut i: usize = 0;
    while i < names.len()
        invariant
            i <= names@.len(),
            views == names@.map_values(|s: String| s@),
            reg.wf(),
            registered_exactly(seed@, first_occurrences(views.take(i as int)), count as nat, reg@),
            forall|k: int| 0 <= k < i ==> derivable(seed@, (#[trigger] names@[k])@, count as nat),
        decreases names@.len() - i,
    {
        let ghost pre = views.take(i as int);
        let ghost fo = first_occurrences(pre);
        assert(views.take(i as int + 1).drop_last() =~= pre);
        assert(views.take(i as int + 1).last() == names@[i as int]@);
        proof {
            assert(has_pool(reg@, names@[i as int]@) <==> fo.contains(names@[i as int]@)) by {
                if has_pool(reg@, names@[i as int]@) {
                    let k = choose|k: int| 0 <= k < reg@.len() && (#[trigger] reg@[k]).name@ == names@[i as int]@;
                    assert(fo[k] == names@[i as int]@);
                }
                if fo.contains(names@[i as int]@) {
                    let k = choose|k: int| 0 <= k < fo.len() && fo[k] == names@[i as int]@;
                    assert(reg@[k].name@ == names@[i as int]@);
                }
            }
        }
        if reg.has(&names[i]) {
            proof {
                lemma_first_occurrences_contains(pre, names@[i as int]@);
                let j = choose|j: int| 0 <= j < pre.len() && pre[j] == names@[i as int]@;
                assert(names@[j]@ == names@[i as int]@);
                assert(derivable(seed@, names@[j]@, count as nat));
            }
        } else {
            match derive_signers(seed, names[i].as_str(), count) {
                Some(signers) => {
                    let ghost before = reg@;
                    let name = names[i].clone();
                    reg.add(name, signers);
                    assert(registered_exactly(
                        seed@,
                        first_occurrences(views.take(i as int + 1)),
                        count as nat,
                        reg@,
                    )) by {
                        assert forall|k: int| 0 <= k < reg@.len() implies {
                            &&& (#[trigger] reg@[k]).name@ == first_occurrences(
                                views.take(i as int + 1),
                            )[k]
                            &&& derived_signers(
                                seed@,
                                first_occurrences(views.take(i as int + 1))[k],
                                count as nat,
                                reg@[k].signers@,
                            )
                        } by {
                            if k < before.len() {
                                assert(reg@[k] == before[k]);
                            }
                        }
                    }
                },
                None => {
                    return Err(ProvisionError::DerivationFailed { pool: names[i].clone() });
                },
            }
        }
        i = i + 1;
    }
    assert(views.take(names@.len() as int) =~= views);
    Ok(reg)
}

/// The text form of a URL after parsing, where the text parses.
pub uninterp spec fn url_serialization(s: Seq<char>) -> Option<Seq<char>>;

/// Relies on `url::Url::parse` and the URL's `to_string`: a text that parses
/// as a URL is given back in its serialised (normalised) form.
#[verifier::external_body]
fn serialize_url(s: &str) -> (r: Option<String>)
    ensures
        match r {
            Some(u) => url_serialization(s@) == Some(u@),
            None => url_serialization(s@) is None,
        },
{
    url::Url::parse(s).ok().map(|u| u.to_string())
}

/// The deployment identifier of a configuration source on an endpoint.
pub open spec fn spec_deployment_id(testfile: Seq<char>, url: Seq<char>) -> Seq<char> {
    "contender_deploy__"@ + testfile + "_"@ + url
}

/// The identifier under which the execution engine records a deployment:
/// the configuration source and the endpoint in its serialised URL form.
/// Fails exactly when the endpoint is not a URL.
pub fn deployment_id(testfile: &str, rpc_url: &str) -> (r: Result<String, ProvisionError>)
    ensures
        match url_serialization(rpc_url@) {
            Some(u) => r matches Ok(id) && id@ == spec_deployment_id(testfile@, u),
            None => r == Err::<String, ProvisionError>(ProvisionError::InvalidEndpoint),
        },
{
    match serialize_url(rpc_url) {
        Some(u) => {
            let mut id = "contender_deploy__".to_owned();
            id.append(testfile);
            id.append("_");
            id.append(u.as_str());
            Ok(id)
        },
        None => Err(ProvisionError::InvalidEndpoint),
    }
}

/// The addresses of the signers whose keys are given as hex text, in order.
/// Fails at the first malformed key, naming its position.
pub fn key_addresses(keys: &Vec<String>) -> (r: Result<Vec<Vec<u8>>, ProvisionError>)
    ensures
        r is Ok <==> forall|i: int| 0 <= i < keys@.len() ==> (#[trigger] key_text_address(keys@[i]@)) is Some,
        r matches Ok(v) ==> v@.len() == keys@.len() && forall|i: int|
            0 <= i < keys@.len() ==> key_text_address((#[trigger] keys@[i])@) == Some(v@[i]@),
        r matches Err(e) ==> e matches ProvisionError::InvalidPrivateKey { index } && index
            < keys@.len() && key_text_address(keys@[index as int]@) is None && forall|k: int|
            0 <= k < index ==> (#[trigger] key_text_address(keys@[k]@)) is Some,
{
    let mut v: Vec<Vec<u8>> = Vec::new();
    let mut i: usize = 0;
    while i < keys.len()
        invariant
            i <= keys@.len(),
            v@.len() == i,
            forall|k: int| 0 <= k < i ==> key_text_address((#[trigger] keys@[k])@) == Some(v@[k]@),
        decreases keys@.len() - i,
    {
        match key_address(keys[i].as_str()) {
            Some(a) => {
                v.push(a);
            },
            None => {
                return Err(ProvisionError::InvalidPrivateKey { index: i });
            },
        }
        i = i + 1;
    }
    Ok(v)
}

pub(crate) fn same_bytes(a: &Vec<u8>, b: &Vec<u8>) -> (r: bool)
    ensures
        r == (a@ == b@),
{
    if a.len() != b.len() {
        return false;
    }
    let mut i: usize = 0;
    while i < a.len()
        invariant
            i <= a@.len(),
            a@.len() == b@.len(),
            forall|k: int| 0 <= k < i ==> a@[k] == b@[k],
        decreases a@.len() - i,
    {
        if a[i] != b[i] {
            return false;
        }
        i = i + 1;
    }
    assert(a@ =~= b@);
    true
}

fn contains_address(addrs: &Vec<Vec<u8>>, a: &Vec<u8>) -> (r: bool)
    ensures
        r == addrs@.map_values(|x: Vec<u8>| x@).contains(a@),
{
    let ghost views = addrs@.map_values(|x: Vec<u8>| x@);
    let mut i: usize = 0;
    while i < addrs.len()
        invariant
            i <= addrs@.len(),
            views == addrs@.map_values(|x: Vec<u8>| x@),
            forall|k: int| 0 <= k < i ==> views[k] != a@,
        decreases addrs@.len() - i,
    {
        if same_bytes(&addrs[i], a) {
            assert(views[i as int] == a@);
            return true;
        }
        i = i + 1;
    }
    false
}

/// Whether a template's named sender, if it has one, is a valid address among
/// `addrs`.
pub open spec fn sender_known(t: TxTemplate, addrs: Seq<Seq<u8>>) -> bool {
    match t.from {
        Some(s) => match address_from_text(s@) {
            Some(a) => addrs.contains(a),
            None => false,
        },
        None => true,
    }
}

/// Checks that every setup transaction that names its sender names one whose
/// key was supplied. Fails at the first that does not, naming its position.
pub fn check_sender_keys(setup: &Vec<TxTemplate>, signer_addrs: &Vec<Vec<u8>>) -> (r: Result<
    (),
    ProvisionError,
>)
    ensures
        r is Ok <==> forall|i: int|
            0 <= i < setup@.len() ==> sender_known(
                #[trigger] setup@[i],
                signer_addrs@.map_values(|x: Vec<u8>| x@),
            ),
        r matches Err(e) ==> e matches ProvisionError::MissingSenderKey { index } && index
            < setup@.len() && !sender_known(
            setup@[index as int],
            signer_addrs@.map_values(|x: Vec<u8>| x@),
        ) && forall|k: int|
            0 <= k < index ==> sender_known(
                #[trigger] setup@[k],
                signer_addrs@.map_values(|x: Vec<u8>| x@),
            ),
{
    let ghost views = signer_addrs@.map_values(|x: Vec<u8>| x@);
    let mut i: usize = 0;
    while i < setup.len()
        invariant
            i <= setup@.len(),
            views == signer_addrs@.map_values(|x: Vec<u8>| x@),
            forall|k: int| 0 <= k < i ==> sender_known(#[trigger] setup@[k], views),
        decreases setup@.len() - i,
    {
        match &setup[i].from {
            Some(text) => {
                match parse_address(text.as_str()) {
                    Some(a) => {
                        if !contains_address(signer_addrs, &a) {
                            return Err(ProvisionError::MissingSenderKey { index: i });
                        }
                    },
                    None => {
                        return Err(ProvisionError::MissingSenderKey { index: i });
                    },
                }
            },
            None => {},
        }
        i = i + 1;
    }
    Ok(())
}

} // verus!
