use crate::amount::{capped, ether_to_wei, parse_ether, Wei};
use crate::balance::{
    find_insufficient, funding_transfers, insufficient, lemma_insufficient_members, Transfer,
};
use crate::cost::{check_cost, declared_total, setup_cost, CostEstimate};
use crate::error::{Phase, ProvisionError};
use crate::plan::{
    same_bytes, check_sender_keys, declared_pools, deployment_id, first_occurrences, key_addresses,
    pool_declarations, register_pools, registered_exactly, sender_known, setup_values,
    spec_deployment_id, url_serialization, ScenarioConfig, TxTemplate,
};
use crate::registry::{addresses_of, AgentRegistry};
use crate::signer::{derivable, key_text_address};
use vstd::prelude::*;
use vstd::string::is_ascii;

verus! {

/// How many signers are derived for each pool.
pub const SIGNERS_PER_POOL: u64 = 1;

/// Where a provisioning run stands. Stages only move forward.
#[derive(Clone, Copy, Debug, PartialEq, Eq, Structural)]
pub enum Stage {
    AwaitUserBalances,
    AwaitSignerBalances,
    AwaitFunding,
    AwaitDeploymentCost,
    AwaitDeployment,
    AwaitSetupCost,
    AwaitSetup,
    Complete,
    Aborted,
}

/// The outcome of an action, handed back by whoever performed it.
#[derive(Debug, PartialEq, Eq)]
pub enum Event {
    /// Current balances of the queried addresses.
    Balances(Vec<(Vec<u8>, Wei)>),
    /// Every funding transfer was confirmed.
    Funded,
    /// The engine's estimate of the deployment cost.
    DeploymentCost(Wei),
    /// The contracts were deployed.
    Deployed,
    /// The simulated setup cost, or why simulation failed.
    SetupCost(Result<Wei, String>),
    /// The setup transactions ran.
    SetupDone,
}

/// What the run asks to be done next.
#[derive(Clone, Debug, PartialEq, Eq)]
pub enum Action {
    /// Read the current balance of each address.
    QueryBalances(Vec<Vec<u8>>),
    /// Send these transfers from the signer with this key and await them.
    Fund { admin_key: String, transfers: Vec<Transfer> },
    /// Ask the engine for the deployment cost.
    EstimateDeploymentCost,
    /// Deploy the contracts under this identifier.
    Deploy { deployment_id: String },
    /// Ask the engine to simulate the setup transactions.
    EstimateSetupCost,
    /// Run the setup transactions, whose cost was found to be covered.
    RunSetup { cost: CostEstimate },
    /// Provisioning is complete.
    Done,
    /// Provisioning stopped.
    Abort(ProvisionError),
}

/// One provisioning run: what was read from the inputs, the derived signers,
/// and the stage reached.
#[derive(Debug)]
pub struct Provisioning {
    pub stage: Stage,
    pub deployment_id: String,
    pub min_balance: Wei,
    pub seed: Vec<u8>,
    /// The supplied keys followed by the default keys; the first funds.
    pub signer_keys: Vec<String>,
    /// The addresses of the supplied keys only.
    pub user_addresses: Vec<Vec<u8>>,
    /// Every pool declaration of the configuration, repetitions included.
    pub pools: Vec<String>,
    pub setup_values: Vec<Option<String>>,
    pub agents: AgentRegistry,
    /// The addresses whose balances the run asked for to plan funding.
    pub queried: Vec<Vec<u8>>,
}

pub open spec fn string_views(s: Seq<String>) -> Seq<Seq<char>> {
    s.map_values(|x: String| x@)
}

pub open spec fn byte_views(s: Seq<Vec<u8>>) -> Seq<Seq<u8>> {
    s.map_values(|x: Vec<u8>| x@)
}

/// Whether a minimum balance is ASCII text that reads as an ether amount.
pub open spec fn readable_amount(s: &str) -> bool {
    is_ascii(s) && ether_to_wei(s@) is Some
}

/// The addresses of a balance report, in order.
pub open spec fn balance_addresses(b: Seq<(Vec<u8>, Wei)>) -> Seq<Seq<u8>> {
    b.map_values(|p: (Vec<u8>, Wei)| p.0@)
}

/// Whether a balance report covers exactly these addresses, in this order.
fn reports_addresses(b: &Vec<(Vec<u8>, Wei)>, addrs: &Vec<Vec<u8>>) -> (r: bool)
    ensures
        r == (balance_addresses(b@) == byte_views(addrs@)),
{
    if b.len() != addrs.len() {
        return false;
    }
    let mut i: usize = 0;
    while i < b.len()
        invariant
            i <= b@.len(),
            b@.len() == addrs@.len(),
            forall|k: int| 0 <= k < i ==> b@[k].0@ == addrs@[k]@,
        decreases b@.len() - i,
    {
        if !same_bytes(&b[i].0, &addrs[i]) {
            assert(balance_addresses(b@)[i as int] != byte_views(addrs@)[i as int]);
            return false;
        }
        i = i + 1;
    }
    assert(balance_addresses(b@) =~= byte_views(addrs@));
    true
}

/// Whether every key of `keys` is a valid signing key.
pub open spec fn keys_valid(keys: Seq<String>) -> bool {
    forall|i: int| 0 <= i < keys.len() ==> (#[trigger] key_text_address(keys[i]@)) is Some
}

/// The addresses of keys that are all valid.
pub open spec fn key_address_views(keys: Seq<String>) -> Seq<Seq<u8>> {
    keys.map_values(|k: String| key_text_address(k@).unwrap())
}

/// The cost a setup estimate comes to: the simulated one, else the static sum.
pub open spec fn setup_amount(simulated: Result<Wei, String>, values: Seq<Option<String>>) -> nat {
    match simulated {
        Ok(c) => c.value(),
        Err(_) => capped(declared_total(values)),
    }
}

fn concat_keys(a: &Vec<String>, b: &Vec<String>) -> (r: Vec<String>)
    ensures
        string_views(r@) == string_views(a@) + string_views(b@),
{
    let mut r: Vec<String> = Vec::new();
    let mut i: usize = 0;
    while i < a.len()
        invariant
            i <= a@.len(),
            string_views(r@) == string_views(a@.take(i as int)),
        decreases a@.len() - i,
    {
        let ghost prev = r@;
        r.push(a[i].clone());
        assert(string_views(r@) =~= string_views(a@.take(i as int + 1))) by {
            assert(string_views(r@) =~= string_views(prev).push(a@[i as int]@));
            assert(string_views(a@.take(i as int + 1)) =~= string_views(a@.take(i as int)).push(
                a@[i as int]@,
            ));
        }
        i = i + 1;
    }
    assert(a@.take(a@.len() as int) =~= a@);
    let mut j: usize = 0;
    while j < b.len()
        invariant
            j <= b@.len(),
            string_views(r@) == string_views(a@) + string_views(b@.take(j as int)),
        decreases b@.len() - j,
    {
        let ghost prev = r@;
        r.push(b[j].clone());
        assert(string_views(r@) =~= string_views(a@) + string_views(b@.take(j as int + 1))) by {
            assert(string_views(r@) =~= string_views(prev).push(b@[j as int]@));
            assert(string_views(b@.take(j as int + 1)) =~= string_views(b@.take(j as int)).push(
                b@[j as int]@,
            ));
        }
        j = j + 1;
    }
    assert(b@.take(b@.len() as int) =~= b@);
    r
}

fn setup_value_list(setup: &Vec<TxTemplate>) -> (r: Vec<Option<String>>)
    ensures
        r@ == setup@.map_values(|t: TxTemplate| t.value),
{
    let mut r: Vec<Option<String>> = Vec::new();
    let mut i: usize = 0;
    while i < setup.len()
        invariant
            i <= setup@.len(),
            r@ == setup@.take(i as int).map_values(|t: TxTemplate| t.value),
        decreases setup@.len() - i,
    {
        let v = match &setup[i].value {
            Some(s) => Some(s.clone()),
            None => None,
        };
        assert(v == setup@[i as int].value);
        r.push(v);
        assert(r@ =~= setup@.take(i as int + 1).map_values(|t: TxTemplate| t.value));
        i = i + 1;
    }
    assert(setup@.take(setup@.len() as int) =~= setup@);
    r
}

fn append_addresses(r: &mut Vec<Vec<u8>>, extra: Vec<Vec<u8>>)
    ensures
        byte_views(final(r)@) == byte_views(old(r)@) + byte_views(extra@),
{
    let ghost start = byte_views(r@);
    let mut i: usize = 0;
    while i < extra.len()
        invariant
            i <= extra@.len(),
            byte_views(r@) == start + byte_views(extra@.take(i as int)),
        decreases extra@.len() - i,
    {
        let ghost prev = r@;
        let a = extra[i].clone();
        assert(a@ =~= extra@[i as int]@);
        r.push(a);
        assert(byte_views(r@) =~= start + byte_views(extra@.take(i as int + 1))) by {
            assert(byte_views(r@) =~= byte_views(prev).push(a@));
            assert(byte_views(extra@.take(i as int + 1)) =~= byte_views(extra@.take(i as int)).push(
                a@,
            ));
        }
        i = i + 1;
    }
    assert(extra@.take(extra@.len() as int) =~= extra@);
}

impl Provisioning {
    pub open spec fn wf(&self) -> bool {
        &&& self.agents.wf()
        &&& self.signer_keys@.len() > 0
        &&& self.stage == Stage::AwaitSignerBalances ==> byte_views(self.queried@) == byte_views(
            self.user_addresses@,
        ) + addresses_of(self.agents@)
    }

    /// Reads the inputs of a run: the deployment identifier, the minimum
    /// balance in ether, the supplied keys (then the default keys), the pool
    /// declarations and the setup values. Each check fails in this order:
    /// the endpoint, the amount, each key, the presence of a funding key, and
    /// every named setup sender.
    pub fn prepare(
        config: &ScenarioConfig,
        testfile: &str,
        rpc_url: &str,
        private_keys: &Vec<String>,
        default_keys: &Vec<String>,
        min_balance: &str,
        seed: &Vec<u8>,
    ) -> (r: Result<Provisioning, ProvisionError>)
        ensures
            url_serialization(rpc_url@) is None ==> r == Err::<Provisioning, ProvisionError>(
                ProvisionError::InvalidEndpoint,
            ),
            url_serialization(rpc_url@) is Some && !readable_amount(min_balance) ==> r
                == Err::<Provisioning, ProvisionError>(ProvisionError::InvalidAmount),
            url_serialization(rpc_url@) is Some && readable_amount(min_balance) && !(
            keys_valid(private_keys@) && keys_valid(default_keys@)) ==> {
                let keys = private_keys@ + default_keys@;
                &&& r matches Err(ProvisionError::InvalidPrivateKey { index })
                &&& index < keys.len()
                &&& key_text_address(keys[index as int]@) is None
                &&& forall|k: int| 0 <= k < index ==> (#[trigger] key_text_address(keys[k]@)) is Some
            },
            url_serialization(rpc_url@) is Some && readable_amount(min_balance) && keys_valid(
                private_keys@,
            ) && keys_valid(default_keys@) && private_keys@.len() + default_keys@.len() == 0
                ==> r == Err::<Provisioning, ProvisionError>(ProvisionError::NoAdminSigner),
            url_serialization(rpc_url@) is Some && readable_amount(min_balance) && keys_valid(
                private_keys@,
            ) && keys_valid(default_keys@) && private_keys@.len() + default_keys@.len() > 0 ==> {
                let known = key_address_views(private_keys@) + key_address_views(default_keys@);
                if forall|i: int|
                    0 <= i < config.setup@.len() ==> sender_known(
                        #[trigger] config.setup@[i],
                        known,
                    ) {
                    r matches Ok(p) && {
                        &&& p.wf()
                        &&& p.stage == Stage::AwaitUserBalances
                        &&& p.deployment_id@ == spec_deployment_id(
                            testfile@,
                            url_serialization(rpc_url@).unwrap(),
                        )
                        &&& Some(p.min_balance.value()) == ether_to_wei(min_balance@)
                        &&& p.seed@ == seed@
                        &&& string_views(p.signer_keys@) == string_views(private_keys@)
                            + string_views(default_keys@)
                        &&& byte_views(p.user_addresses@) == key_address_views(private_keys@)
                        &&& string_views(p.pools@) == declared_pools(*config)
                        &&& p.setup_values@ == setup_values(*config)
                        &&& p.agents@.len() == 0
                    }
                } else {
                    &&& r matches Err(ProvisionError::MissingSenderKey { index })
                    &&& index < config.setup@.len()
                    &&& !sender_known(config.setup@[index as int], known)
                    &&& forall|k: int|
                        0 <= k < index ==> sender_known(#[trigger] config.setup@[k], known)
                }
            },
    {
        let id = match deployment_id(testfile, rpc_url) {
            Ok(id) => id,
            Err(e) => {
                return Err(e);
            },
        };
        if !min_balance.is_ascii() {
            return Err(ProvisionError::InvalidAmount);
        }
        let threshold = match parse_ether(min_balance) {
            Some(w) => w,
            None => {
                return Err(ProvisionError::InvalidAmount);
            },
        };
        let signer_keys = concat_keys(private_keys, default_keys);
        let all_addresses = match key_addresses(&signer_keys) {
            Ok(v) => v,
            Err(e) => {
                proof {
                    let views = string_views(signer_keys@);
                    let keys = private_keys@ + default_keys@;
                    assert(views =~= string_views(private_keys@) + string_views(default_keys@));
                    assert(views.len() == private_keys@.len() + default_keys@.len());
                    assert forall|i: int| 0 <= i < keys.len() implies #[trigger] keys[i]@
                        == signer_keys@[i]@ by {
                        assert(views[i] == signer_keys@[i]@);
                        if i < private_keys@.len() {
                            assert(views[i] == private_keys@[i]@);
                        } else {
                            assert(views[i] == default_keys@[i - private_keys@.len()]@);
                        }
                    }
                    if let ProvisionError::InvalidPrivateKey { index } = e {
                        assert(keys[index as int]@ == signer_keys@[index as int]@);
                        assert forall|k: int| 0 <= k < index implies (#[trigger] key_text_address(
                            keys[k]@,
                        )) is Some by {
                            assert(keys[k]@ == signer_keys@[k]@);
                        }
                    }
                    if keys_valid(private_keys@) && keys_valid(default_keys@) {
                        assert forall|i: int| 0 <= i < signer_keys@.len() implies (
                        #[trigger] key_text_address(signer_keys@[i]@)) is Some by {
                            assert(views[i] == signer_keys@[i]@);
                            if i < private_keys@.len() {
                                assert(views[i] == private_keys@[i]@);
                            } else {
                                assert(views[i] == default_keys@[i - private_keys@.len()]@);
                            }
                        }
                    }
                }
                return Err(e);
            },
        };
        let user_addresses = match key_addresses(private_keys) {
            Ok(v) => v,
            Err(e) => {
                proof {
                    let views = string_views(signer_keys@);
                    assert(views =~= string_views(private_keys@) + string_views(default_keys@));
                    assert(views.len() == private_keys@.len() + default_keys@.len());
                    assert forall|i: int| 0 <= i < private_keys@.len() implies (
                    #[trigger] key_text_address(private_keys@[i]@)) is Some by {
                        assert(views[i] == signer_keys@[i]@);
                        assert(views[i] == private_keys@[i]@);
                        assert(key_text_address(signer_keys@[i]@) is Some);
                    }
                }
                return Err(e);
            },
        };
        proof {
            let views = string_views(signer_keys@);
            assert(views =~= string_views(private_keys@) + string_views(default_keys@));
            assert(views.len() == private_keys@.len() + default_keys@.len());
            assert forall|i: int| 0 <= i < default_keys@.len() implies (
            #[trigger] key_text_address(default_keys@[i]@)) is Some by {
                let j = i + private_keys@.len();
                assert(views[j] == signer_keys@[j]@);
                assert(views[j] == default_keys@[i]@);
                assert(key_text_address(signer_keys@[j]@) is Some);
            }
            assert(byte_views(user_addresses@) =~= key_address_views(private_keys@));
            assert(byte_views(all_addresses@) =~= key_address_views(private_keys@)
                + key_address_views(default_keys@)) by {
                assert forall|i: int| 0 <= i < all_addresses@.len() implies #[trigger] byte_views(
                    all_addresses@,
                )[i] == (key_address_views(private_keys@) + key_address_views(default_keys@))[i] by {
                    assert(views[i] == signer_keys@[i]@);
                    if i < private_keys@.len() {
                        assert(views[i] == private_keys@[i]@);
                    } else {
                        assert(views[i] == default_keys@[i - private_keys@.len()]@);
                    }
                }
            }
        }
        if signer_keys.len() == 0 {
            return Err(ProvisionError::NoAdminSigner);
        }
        match check_sender_keys(&config.setup, &all_addresses) {
            Ok(()) => {},
            Err(e) => {
                return Err(e);
            },
        }
        let pools = pool_declarations(config);
        let values = setup_value_list(&config.setup);
        Ok(Provisioning {
            stage: Stage::AwaitUserBalances,
            deployment_id: id,
            min_balance: threshold,
            seed: seed.clone(),
            signer_keys,
            user_addresses,
            pools,
            setup_values: values,
            agents: AgentRegistry::new(),
            queried: Vec::new(),
        })
    }

    /// Whether a step leaves the inputs of the run as they were.
    pub open spec fn same_inputs(&self, other: &Provisioning) -> bool {
        &&& self.deployment_id == other.deployment_id
        &&& self.min_balance == other.min_balance
        &&& self.seed == other.seed
        &&& self.signer_keys == other.signer_keys
        &&& self.user_addresses == other.user_addresses
        &&& self.pools == other.pools
        &&& self.setup_values == other.setup_values
    }

    /// Advances the run by one event and says what to do next: check the
    /// supplied accounts, derive and register the pools, fund every account
    /// below the minimum balance, gate deployment and setup on their cost,
    /// and finish. An event that the stage does not expect aborts the run.
    pub fn step(&mut self, event: Event) -> (r: Action)
        requires
            old(self).wf(),
        ensures
            final(self).wf(),
            final(self).same_inputs(old(self)),
            old(self).stage != Stage::AwaitUserBalances ==> final(self).agents == old(self).agents,
            match (old(self).stage, event) {
                (Stage::AwaitUserBalances, Event::Balances(b)) => {
                    let short = insufficient(b@, old(self).min_balance.value());
                    if balance_addresses(b@) != byte_views(old(self).user_addresses@) {
                        &&& final(self).stage == Stage::Aborted
                        &&& final(self).agents == old(self).agents
                        &&& r == Action::Abort(ProvisionError::UnexpectedEvent)
                    } else if short.len() > 0 {
                        &&& final(self).stage == Stage::Aborted
                        &&& final(self).agents == old(self).agents
                        &&& r matches Action::Abort(ProvisionError::InsufficientBalance { accounts })
                        &&& accounts@.map_values(|p: (Vec<u8>, Wei)| (p.0@, p.1.value())) == short
                    } else if forall|i: int|
                        0 <= i < old(self).pools@.len() ==> derivable(
                            old(self).seed@,
                            (#[trigger] old(self).pools@[i])@,
                            SIGNERS_PER_POOL as nat,
                        ) {
                        &&& final(self).stage == Stage::AwaitSignerBalances
                        &&& registered_exactly(
                            old(self).seed@,
                            first_occurrences(string_views(old(self).pools@)),
                            SIGNERS_PER_POOL as nat,
                            final(self).agents@,
                        )
                        &&& r matches Action::QueryBalances(addrs)
                        &&& byte_views(addrs@) == byte_views(old(self).user_addresses@)
                            + addresses_of(final(self).agents@)
                    } else {
                        &&& final(self).stage == Stage::Aborted
                        &&& r matches Action::Abort(ProvisionError::DerivationFailed { .. })
                    }
                },
                (Stage::AwaitSignerBalances, Event::Balances(b)) => {
                    let short = insufficient(b@, old(self).min_balance.value());
                    if balance_addresses(b@) != byte_views(old(self).queried@) {
                        &&& final(self).stage == Stage::Aborted
                        &&& r == Action::Abort(ProvisionError::UnexpectedEvent)
                    } else {
                    &&& final(self).stage == Stage::AwaitFunding
                    &&& r matches Action::Fund { admin_key, transfers }
                    &&& admin_key@ == old(self).signer_keys@[0]@
                    &&& transfers@.len() == short.len()
                    &&& forall|k: int|
                        0 <= k < transfers@.len() ==> {
                            &&& (#[trigger] transfers@[k]).to@ == short[k].0
                            &&& transfers@[k].amount == old(self).min_balance
                            &&& (byte_views(old(self).user_addresses@) + addresses_of(
                                old(self).agents@,
                            )).contains(transfers@[k].to@)
                        }
                    }
                },
                (Stage::AwaitFunding, Event::Funded) => {
                    &&& final(self).stage == Stage::AwaitDeploymentCost
                    &&& r == Action::EstimateDeploymentCost
                },
                (Stage::AwaitDeploymentCost, Event::DeploymentCost(c)) => {
                    if c.value() <= old(self).min_balance.value() {
                        &&& final(self).stage == Stage::AwaitDeployment
                        &&& r == (Action::Deploy { deployment_id: old(self).deployment_id })
                    } else {
                        &&& final(self).stage == Stage::Aborted
                        &&& r == Action::Abort(
                            ProvisionError::CostTooHigh {
                                phase: Phase::Deployment,
                                min_balance: old(self).min_balance,
                                cost: c,
                            },
                        )
                    }
                },
                (Stage::AwaitDeployment, Event::Deployed) => {
                    &&& final(self).stage == Stage::AwaitSetupCost
                    &&& r == Action::EstimateSetupCost
                },
                (Stage::AwaitSetupCost, Event::SetupCost(sim)) => {
                    let amount = setup_amount(sim, old(self).setup_values@);
                    if amount <= old(self).min_balance.value() {
                        &&& final(self).stage == Stage::AwaitSetup
                        &&& r matches Action::RunSetup { cost }
                        &&& cost.spec_amount().value() == amount
                        &&& (sim is Ok <==> cost is Estimated)
                    } else {
                        &&& final(self).stage == Stage::Aborted
                        &&& r matches Action::Abort(
                            ProvisionError::CostTooHigh { phase, min_balance, cost },
                        )
                        &&& phase == Phase::Setup
                        &&& min_balance == old(self).min_balance
                        &&& cost.value() == amount
                    }
                },
                (Stage::AwaitSetup, Event::SetupDone) => {
                    &&& final(self).stage == Stage::Complete
                    &&& r == Action::Done
                },
                _ => {
                    &&& final(self).stage == Stage::Aborted
                    &&& r == Action::Abort(ProvisionError::UnexpectedEvent)
                },
            },
    {
        match (self.stage, event) {
            (Stage::AwaitUserBalances, Event::Balances(b)) => {
                if !reports_addresses(&b, &self.user_addresses) {
                    self.stage = Stage::Aborted;
                    return Action::Abort(ProvisionError::UnexpectedEvent);
                }
                let short = find_insufficient(&b, &self.min_balance);
                if short.len() > 0 {
                    self.stage = Stage::Aborted;
                    return Action::Abort(ProvisionError::InsufficientBalance { accounts: short });
                }
                match register_pools(&self.seed, &self.pools, SIGNERS_PER_POOL) {
                    Ok(reg) => {
                        self.agents = reg;
                        let mut addrs = self.user_addresses.clone();
                        assert(byte_views(addrs@) =~= byte_views(self.user_addresses@)) by {
                            assert forall|i: int| 0 <= i < addrs@.len() implies addrs@[i]@
                                == self.user_addresses@[i]@ by {
                                assert(addrs@[i]@ =~= self.user_addresses@[i]@);
                            }
                        }
                        let derived = self.agents.all_addresses();
                        append_addresses(&mut addrs, derived);
                        let queried = addrs.clone();
                        assert(byte_views(queried@) =~= byte_views(addrs@)) by {
                            assert forall|i: int| 0 <= i < addrs@.len() implies queried@[i]@
                                == addrs@[i]@ by {
                                assert(queried@[i]@ =~= addrs@[i]@);
                            }
                        }
                        self.queried = queried;
                        self.stage = Stage::AwaitSignerBalances;
                        Action::QueryBalances(addrs)
                    },
                    Err(e) => {
                        self.stage = Stage::Aborted;
                        Action::Abort(e)
                    },
                }
            },
            (Stage::AwaitSignerBalances, Event::Balances(b)) => {
                if !reports_addresses(&b, &self.queried) {
                    self.stage = Stage::Aborted;
                    return Action::Abort(ProvisionError::UnexpectedEvent);
                }
                let transfers = funding_transfers(&b, &self.min_balance);
                proof {
                    let t = self.min_balance.value();
                    let short = insufficient(b@, t);
                    let known = byte_views(self.user_addresses@) + addresses_of(self.agents@);
                    assert forall|k: int| 0 <= k < transfers@.len() implies known.contains(
                        #[trigger] transfers@[k].to@,
                    ) by {
                        lemma_insufficient_members(b@, t, short[k].0);
                        assert(short[k].0 == transfers@[k].to@);
                        let j = choose|j: int|
                            0 <= j < b@.len() && #[trigger] b@[j].0@ == short[k].0 && b@[j].1.value()
                                < t;
                        assert(balance_addresses(b@)[j] == b@[j].0@);
                        assert(known[j] == transfers@[k].to@);
                    }
                }
                self.stage = Stage::AwaitFunding;
                Action::Fund { admin_key: self.signer_keys[0].clone(), transfers }
            },
            (Stage::AwaitFunding, Event::Funded) => {
                self.stage = Stage::AwaitDeploymentCost;
                Action::EstimateDeploymentCost
            },
            (Stage::AwaitDeploymentCost, Event::DeploymentCost(c)) => {
                match check_cost(Phase::Deployment, self.min_balance, c) {
                    Ok(()) => {
                        self.stage = Stage::AwaitDeployment;
                        Action::Deploy { deployment_id: self.deployment_id.clone() }
                    },
                    Err(e) => {
                        self.stage = Stage::Aborted;
                        Action::Abort(e)
                    },
                }
            },
            (Stage::AwaitDeployment, Event::Deployed) => {
                self.stage = Stage::AwaitSetupCost;
                Action::EstimateSetupCost
            },
            (Stage::AwaitSetupCost, Event::SetupCost(sim)) => {
                let estimate = setup_cost(sim, &self.setup_values);
                match check_cost(Phase::Setup, self.min_balance, estimate.amount()) {
                    Ok(()) => {
                        self.stage = Stage::AwaitSetup;
                        Action::RunSetup { cost: estimate }
                    },
                    Err(e) => {
                        self.stage = Stage::Aborted;
                        Action::Abort(e)
                    },
                }
            },
            (Stage::AwaitSetup, Event::SetupDone) => {
                self.stage = Stage::Complete;
                Action::Done
            },
            _ => {
                self.stage = Stage::Aborted;
                Action::Abort(ProvisionError::UnexpectedEvent)
            },
        }
    }
}

} // verus!
