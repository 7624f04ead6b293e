use provisioning::amount::{parse_ether, parse_uint, Wei};
use provisioning::balance::{find_insufficient, funding_transfers};
use provisioning::cost::{check_cost, declared_value, fallback_setup_cost, setup_cost, CostEstimate};
use provisioning::error::{Phase, ProvisionError};
use provisioning::plan::{
    check_sender_keys, deployment_id, key_addresses, pool_declarations, register_pools,
    ScenarioConfig, TxTemplate,
};
use provisioning::registry::AgentRegistry;
use provisioning::signer::{derive_signers, key_address, parse_address};
use provisioning::workflow::{Action, Event, Provisioning, Stage};

const ETHER: u128 = 1_000_000_000_000_000_000;
const KEY_ONE: &str = "0000000000000000000000000000000000000000000000000000000000000001";
const ADDRESS_ONE: &str = "7E5F4552091A69125d5DfCb7b8C2659029395Bdf";

fn wei(v: u128) -> Wei {
    Wei::from_u128(v)
}

fn template(from_pool: Option<&str>, value: Option<&str>) -> TxTemplate {
    TxTemplate {
        from: None,
        from_pool: from_pool.map(|s| s.to_string()),
        value: value.map(|s| s.to_string()),
    }
}

fn buyers_config() -> ScenarioConfig {
    ScenarioConfig {
        setup: vec![template(Some("buyers"), Some("100"))],
        create: vec![template(Some("buyers"), None)],
    }
}

fn address_one() -> Vec<u8> {
    parse_address(ADDRESS_ONE).unwrap()
}

#[test]
fn wei_comparison_and_wrapping_sum() {
    assert!(wei(1).lt(&wei(2)));
    assert!(!wei(2).lt(&wei(2)));
    assert!(wei(u128::MAX).lt(&Wei { hi: 1, lo: 0 }));
    let max = Wei { hi: u128::MAX, lo: u128::MAX };
    assert_eq!(max.wrapping_add(&wei(1)), wei(0));
    assert_eq!(wei(u128::MAX).wrapping_add(&wei(1)), Wei { hi: 1, lo: 0 });
}

#[test]
fn wei_limbs_round_trip() {
    let w = Wei { hi: 0x0102_0304_0506_0708_090a_0b0c_0d0e_0f10, lo: 0x1112_1314_1516_1718_191a_1b1c_1d1e_1f20 };
    let limbs = w.to_limbs();
    assert_eq!(limbs[0], 0x191a_1b1c_1d1e_1f20);
    assert_eq!(limbs[3], 0x0102_0304_0506_0708);
    assert_eq!(Wei::from_limbs(limbs), w);
}

#[test]
fn parses_ether_and_integers() {
    assert_eq!(parse_ether("1"), Some(wei(ETHER)));
    assert_eq!(parse_ether("0.5"), Some(wei(ETHER / 2)));
    assert_eq!(parse_ether("abc"), None);
    assert_eq!(parse_uint("0x10"), Some(wei(16)));
    assert_eq!(parse_uint("250"), Some(wei(250)));
    assert_eq!(parse_uint("x"), None);
}

#[test]
fn balance_verifier_reports_only_accounts_below_threshold() {
    let t = wei(1000);
    let balances = vec![(vec![1u8], wei(999)), (vec![2u8], wei(1000)), (vec![3u8], wei(1001))];
    assert_eq!(find_insufficient(&balances, &t), vec![(vec![1u8], wei(999))]);
    assert!(find_insufficient(&vec![], &t).is_empty());
}

#[test]
fn funding_skips_accounts_at_or_above_threshold() {
    let t = wei(1000);
    let balances = vec![(vec![1u8], wei(1000)), (vec![2u8], wei(5000))];
    assert!(funding_transfers(&balances, &t).is_empty());
    let balances = vec![(vec![1u8], wei(10)), (vec![2u8], wei(5000))];
    let transfers = funding_transfers(&balances, &t);
    assert_eq!(transfers.len(), 1);
    assert_eq!(transfers[0].to, vec![1u8]);
    assert_eq!(transfers[0].amount, t);
}

#[test]
fn cost_gate_boundary() {
    let cost = wei(500);
    assert_eq!(check_cost(Phase::Deployment, wei(500), cost), Ok(()));
    assert_eq!(
        check_cost(Phase::Deployment, wei(499), cost),
        Err(ProvisionError::CostTooHigh { phase: Phase::Deployment, min_balance: wei(499), cost })
    );
}

#[test]
fn setup_cost_falls_back_to_declared_values() {
    let values = vec![Some("100".to_string()), Some("200".to_string()), None];
    assert_eq!(fallback_setup_cost(&values), wei(300));
    match setup_cost(Err("simulation rejected".to_string()), &values) {
        CostEstimate::Fallback { amount, reason } => {
            assert_eq!(amount, wei(300));
            assert_eq!(reason, "simulation rejected");
        }
        other => panic!("unexpected estimate {:?}", other),
    }
    assert_eq!(setup_cost(Ok(wei(7)), &values), CostEstimate::Estimated(wei(7)));
    assert_eq!(declared_value(&Some("not a number".to_string())), wei(0));
}

#[test]
fn fallback_sum_saturates_at_256_bits() {
    let max = "0xffffffffffffffffffffffffffffffffffffffffffffffffffffffffffffffff".to_string();
    let values = vec![Some(max), Some("2".to_string())];
    assert_eq!(fallback_setup_cost(&values), Wei::max_value());
    assert_eq!(wei(1).saturating_add(&wei(2)), wei(3));
    assert_eq!(Wei::max_value().saturating_add(&wei(1)), Wei::max_value());
}

#[test]
fn balance_report_must_cover_queried_addresses() {
    let mut p = prepared("1");
    let action = p.step(Event::Balances(vec![(vec![0u8; 20], wei(2 * ETHER))]));
    assert_eq!(action, Action::Abort(ProvisionError::UnexpectedEvent));
    assert_eq!(p.stage, Stage::Aborted);

    let mut p = prepared("1");
    let user = address_one();
    let addrs = match p.step(Event::Balances(vec![(user.clone(), wei(2 * ETHER))])) {
        Action::QueryBalances(a) => a,
        other => panic!("unexpected action {:?}", other),
    };
    let stranger = vec![9u8; 20];
    let action = p.step(Event::Balances(vec![(user, wei(2 * ETHER)), (stranger, wei(0))]));
    assert_eq!(action, Action::Abort(ProvisionError::UnexpectedEvent));
    assert_eq!(addrs.len(), 2);
}

#[test]
fn derivation_is_deterministic() {
    let seed = vec![7u8, 7, 7];
    let a = derive_signers(&seed, "poolA", 3).unwrap();
    let b = derive_signers(&seed, "poolA", 3).unwrap();
    assert_eq!(a, b);
    assert_eq!(a.len(), 3);
    assert_ne!(a[0].secret, a[1].secret);
    let c = derive_signers(&seed, "poolB", 3).unwrap();
    assert_ne!(a[0].secret, c[0].secret);
}

#[test]
fn derivation_hashes_seed_name_and_index() {
    let seed = vec![1u8, 2];
    let signers = derive_signers(&seed, "ab", 2).unwrap();
    let mut input = vec![1u8, 2, b'a', b'b'];
    input.extend_from_slice(&1u64.to_le_bytes());
    assert_eq!(signers[1].secret, alloy::primitives::keccak256(&input).0);
    let expected = alloy::signers::local::PrivateKeySigner::from_bytes(
        &alloy::primitives::B256::from(signers[1].secret),
    )
    .unwrap()
    .address();
    assert_eq!(signers[1].address, expected.to_vec());
    assert_eq!(signers[1].address.len(), 20);
}

#[test]
fn registry_keeps_first_registration() {
    let seed = vec![1u8];
    let first = derive_signers(&seed, "poolA", 1).unwrap();
    let second = derive_signers(&vec![2u8], "poolA", 1).unwrap();
    let mut reg = AgentRegistry::new();
    let name = "poolA".to_string();
    assert!(!reg.has(&name));
    reg.add(name.clone(), first.clone());
    assert!(reg.has(&name));
    reg.add(name.clone(), second);
    assert_eq!(reg.len(), 1);
    assert_eq!(reg.pool(0).signers, first);
}

#[test]
fn register_pools_derives_each_name_once() {
    let names = vec!["buyers".to_string(), "sellers".to_string(), "buyers".to_string()];
    let reg = register_pools(&vec![9u8], &names, 1).unwrap();
    assert_eq!(reg.len(), 2);
    assert_eq!(reg.pool(0).name, "buyers");
    assert_eq!(reg.pool(1).name, "sellers");
    assert_eq!(reg.all_addresses().len(), 2);
}

#[test]
fn pool_declarations_list_setup_then_create() {
    let config = ScenarioConfig {
        setup: vec![template(Some("a"), None), template(None, None)],
        create: vec![template(Some("b"), None), template(Some("a"), None)],
    };
    assert_eq!(pool_declarations(&config), vec!["a", "b", "a"]);
}

#[test]
fn key_and_address_parsing() {
    assert_eq!(key_address(KEY_ONE), Some(address_one()));
    assert_eq!(address_one().len(), 20);
    assert_eq!(key_address("zz"), None);
    assert_eq!(parse_address("0x12"), None);
    let keys = vec![KEY_ONE.to_string(), "bad".to_string()];
    assert_eq!(key_addresses(&keys), Err(ProvisionError::InvalidPrivateKey { index: 1 }));
}

#[test]
fn sender_keys_must_be_supplied() {
    let mut tx = template(None, None);
    tx.from = Some(format!("0x{}", ADDRESS_ONE));
    let setup = vec![template(None, None), tx];
    assert_eq!(check_sender_keys(&setup, &vec![address_one()]), Ok(()));
    assert_eq!(
        check_sender_keys(&setup, &vec![vec![0u8; 20]]),
        Err(ProvisionError::MissingSenderKey { index: 1 })
    );
    let mut unknown = template(None, None);
    unknown.from = Some("0x0000000000000000000000000000000000000002".to_string());
    let setup = vec![unknown.clone(), unknown];
    assert_eq!(
        check_sender_keys(&setup, &vec![address_one()]),
        Err(ProvisionError::MissingSenderKey { index: 0 })
    );
}

#[test]
fn deployment_id_uses_serialised_url() {
    assert_eq!(
        deployment_id("scenario.toml", "http://localhost:8545").unwrap(),
        "contender_deploy__scenario.toml_http://localhost:8545/"
    );
    assert_eq!(deployment_id("scenario.toml", "not a url"), Err(ProvisionError::InvalidEndpoint));
}

fn prepared(min_balance: &str) -> Provisioning {
    Provisioning::prepare(
        &buyers_config(),
        "scenario.toml",
        "http://localhost:8545",
        &vec![KEY_ONE.to_string()],
        &vec![],
        min_balance,
        &vec![42u8],
    )
    .unwrap()
}

/// Drives a run up to the deployment-cost estimate; returns the derived
/// addresses and their balances after funding.
fn fund_run(p: &mut Provisioning) -> Vec<(Vec<u8>, Wei)> {
    let user = address_one();
    let action = p.step(Event::Balances(vec![(user.clone(), wei(2 * ETHER))]));
    let addrs = match action {
        Action::QueryBalances(a) => a,
        other => panic!("unexpected action {:?}", other),
    };
    assert_eq!(p.agents.len(), 1);
    assert_eq!(p.agents.pool(0).name, "buyers");
    assert_eq!(addrs.len(), 2);
    assert_eq!(addrs[0], user);
    let mut balances: Vec<(Vec<u8>, Wei)> = vec![(user, wei(2 * ETHER)), (addrs[1].clone(), wei(0))];
    match p.step(Event::Balances(balances.clone())) {
        Action::Fund { admin_key, transfers } => {
            assert_eq!(admin_key, KEY_ONE);
            assert_eq!(transfers.len(), 1);
            for t in transfers {
                for b in balances.iter_mut() {
                    if b.0 == t.to {
                        b.1 = b.1.wrapping_add(&t.amount);
                    }
                }
            }
        }
        other => panic!("unexpected action {:?}", other),
    }
    assert_eq!(p.step(Event::Funded), Action::EstimateDeploymentCost);
    balances.split_off(1)
}

#[test]
fn end_to_end_run_completes() {
    let mut p = prepared("1");
    let derived = fund_run(&mut p);
    for (_, balance) in &derived {
        assert!(!balance.lt(&wei(ETHER)));
    }
    assert_eq!(
        p.step(Event::DeploymentCost(wei(ETHER / 2))),
        Action::Deploy { deployment_id: "contender_deploy__scenario.toml_http://localhost:8545/".to_string() }
    );
    assert_eq!(p.step(Event::Deployed), Action::EstimateSetupCost);
    assert_eq!(
        p.step(Event::SetupCost(Ok(wei(ETHER / 10)))),
        Action::RunSetup { cost: CostEstimate::Estimated(wei(ETHER / 10)) }
    );
    assert_eq!(p.step(Event::SetupDone), Action::Done);
    assert_eq!(p.stage, Stage::Complete);
}

#[test]
fn end_to_end_run_stops_at_deployment_gate() {
    let mut p = prepared("1");
    fund_run(&mut p);
    let action = p.step(Event::DeploymentCost(wei(2 * ETHER)));
    assert_eq!(
        action,
        Action::Abort(ProvisionError::CostTooHigh {
            phase: Phase::Deployment,
            min_balance: wei(ETHER),
            cost: wei(2 * ETHER),
        })
    );
    assert_eq!(Phase::Deployment.label(), "deployment");
    assert_eq!(p.stage, Stage::Aborted);
    assert_eq!(p.step(Event::Deployed), Action::Abort(ProvisionError::UnexpectedEvent));
}

#[test]
fn underfunded_user_account_aborts_run() {
    let mut p = prepared("1");
    let action = p.step(Event::Balances(vec![(address_one(), wei(ETHER - 1))]));
    assert_eq!(
        action,
        Action::Abort(ProvisionError::InsufficientBalance { accounts: vec![(address_one(), wei(ETHER - 1))] })
    );
    assert_eq!(p.agents.len(), 0);
}

#[test]
fn setup_gate_uses_fallback_estimate() {
    let mut p = prepared("0.0000000000000001");
    fund_run(&mut p);
    assert_eq!(p.step(Event::DeploymentCost(wei(0))), Action::Deploy { deployment_id: p.deployment_id.clone() });
    assert_eq!(p.step(Event::Deployed), Action::EstimateSetupCost);
    match p.step(Event::SetupCost(Err("no simulation".to_string()))) {
        Action::RunSetup { cost } => assert_eq!(cost.amount(), wei(100)),
        other => panic!("unexpected action {:?}", other),
    }
}

#[test]
fn prepare_rejects_bad_inputs() {
    let config = buyers_config();
    let keys = vec![KEY_ONE.to_string()];
    let seed = vec![1u8];
    let run = |url: &str, keys: &Vec<String>, amount: &str| {
        Provisioning::prepare(&config, "f", url, keys, &vec![], amount, &seed).err()
    };
    assert_eq!(run("nope", &keys, "1"), Some(ProvisionError::InvalidEndpoint));
    assert_eq!(run("http://h", &keys, "x"), Some(ProvisionError::InvalidAmount));
    assert_eq!(run("http://h", &keys, "0.00000000000000000\u{e9}"), Some(ProvisionError::InvalidAmount));
    assert_eq!(run("http://h", &vec!["bad".to_string()], "1"), Some(ProvisionError::InvalidPrivateKey { index: 0 }));
    assert_eq!(run("http://h", &vec![], "1"), Some(ProvisionError::NoAdminSigner));
    let mut named = buyers_config();
    named.setup[0].from = Some("0x0000000000000000000000000000000000000001".to_string());
    assert_eq!(
        Provisioning::prepare(&named, "f", "http://h", &keys, &vec![], "1", &seed).err(),
        Some(ProvisionError::MissingSenderKey { index: 0 })
    );
}
