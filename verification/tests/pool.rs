use revenue_pool::rules::total_of;
use revenue_pool::{PoolError, RevenuePool};
use soroban_sdk::testutils::{Address as _, ContractFunctionSet, EnvTestConfig, Events as _};
use soroban_sdk::token::{StellarAssetClient, TokenClient};
use soroban_sdk::xdr::ContractEventBody;
use soroban_sdk::{Address, Env, IntoVal, Symbol, TryFromVal, TryIntoVal, Val, Vec};

/// The contract as the host sees it: a refused call aborts the invocation.
struct Contract;

fn arg<T: TryFromVal<Env, Val>>(env: &Env, args: &[Val], index: usize) -> T {
    match T::try_from_val(env, &args[index]) {
        Ok(value) => value,
        Err(_) => panic!("argument {} has the wrong type", index),
    }
}

fn finish<T: IntoVal<Env, Val>>(env: &Env, outcome: Result<T, PoolError>) -> Option<Val> {
    match outcome {
        Ok(value) => Some(value.into_val(env)),
        Err(error) => panic!("{}", error.message()),
    }
}

impl ContractFunctionSet for Contract {
    fn call(&self, func: &str, env: Env, args: &[Val]) -> Option<Val> {
        let mut host = env.clone();
        match func {
            "init" => {
                let outcome = RevenuePool::init(&mut host, arg(&env, args, 0), arg(&env, args, 1));
                finish(&env, outcome)
            }
            "get_admin" => finish(&env, RevenuePool::get_admin(&host)),
            "set_admin" => {
                let outcome =
                    RevenuePool::set_admin(&mut host, arg(&env, args, 0), arg(&env, args, 1));
                finish(&env, outcome)
            }
            "claim_admin" => {
                let outcome = RevenuePool::claim_admin(&mut host, arg(&env, args, 0));
                finish(&env, outcome)
            }
            "receive_payment" => {
                let outcome = RevenuePool::receive_payment(
                    &mut host,
                    arg(&env, args, 0),
                    arg(&env, args, 1),
                    arg(&env, args, 2),
                );
                finish(&env, outcome)
            }
            "distribute" => {
                let outcome = RevenuePool::distribute(
                    &mut host,
                    arg(&env, args, 0),
                    arg(&env, args, 1),
                    arg(&env, args, 2),
                );
                finish(&env, outcome)
            }
            "batch_distribute" => {
                let outcome = RevenuePool::batch_distribute(
                    &mut host,
                    arg(&env, args, 0),
                    arg(&env, args, 1),
                );
                finish(&env, outcome)
            }
            "balance" => finish(&env, RevenuePool::balance(&mut host)),
            _ => None,
        }
    }
}

/// Calls the contract, as an account or another contract would.
struct Client {
    env: Env,
    address: Address,
}

fn args2<A: IntoVal<Env, Val>, B: IntoVal<Env, Val>>(env: &Env, a: A, b: B) -> Vec<Val> {
    let mut args = Vec::new(env);
    args.push_back(a.into_val(env));
    args.push_back(b.into_val(env));
    args
}

impl Client {
    fn call<T: TryFromVal<Env, Val>>(&self, func: &str, args: Vec<Val>) -> T {
        self.env.invoke_contract(&self.address, &Symbol::new(&self.env, func), args)
    }

    fn succeeds(&self, func: &str, args: Vec<Val>) -> bool {
        let symbol = Symbol::new(&self.env, func);
        matches!(
            self.env.try_invoke_contract::<Val, soroban_sdk::Error>(&self.address, &symbol, args),
            Ok(Ok(_))
        )
    }

    fn init(&self, admin: &Address, usdc_token: &Address) {
        self.call::<()>("init", args2(&self.env, admin, usdc_token));
    }

    fn get_admin(&self) -> Address {
        self.call("get_admin", Vec::new(&self.env))
    }

    fn balance(&self) -> i128 {
        self.call("balance", Vec::new(&self.env))
    }

    fn set_admin(&self, caller: &Address, new_admin: &Address) {
        self.call::<()>("set_admin", args2(&self.env, caller, new_admin));
    }

    fn claim_admin(&self, caller: &Address) {
        let mut args: Vec<Val> = Vec::new(&self.env);
        args.push_back(caller.into_val(&self.env));
        self.call::<()>("claim_admin", args);
    }

    fn distribute_args(&self, caller: &Address, to: &Address, amount: &i128) -> Vec<Val> {
        let mut args = args2(&self.env, caller, to);
        args.push_back(amount.into_val(&self.env));
        args
    }

    fn distribute(&self, caller: &Address, to: &Address, amount: &i128) {
        self.call::<()>("distribute", self.distribute_args(caller, to, amount));
    }

    fn try_distribute(&self, caller: &Address, to: &Address, amount: &i128) -> Result<(), ()> {
        if self.succeeds("distribute", self.distribute_args(caller, to, amount)) {
            Ok(())
        } else {
            Err(())
        }
    }

    fn batch_distribute(&self, caller: &Address, payments: &Vec<(Address, i128)>) {
        self.call::<()>("batch_distribute", args2(&self.env, caller, payments));
    }
}

/// An environment that leaves no snapshot files behind.
fn new_env() -> Env {
    Env::new_with_config(EnvTestConfig { capture_snapshot_at_drop: false })
}

fn create_usdc<'a>(
    env: &'a Env,
    admin: &Address,
) -> (Address, TokenClient<'a>, StellarAssetClient<'a>) {
    let contract_address = env.register_stellar_asset_contract_v2(admin.clone());
    let address = contract_address.address();
    let client = TokenClient::new(env, &address);
    let admin_client = StellarAssetClient::new(env, &address);
    (address, client, admin_client)
}

fn create_pool(env: &Env) -> (Address, Client) {
    let address = env.register(Contract, ());
    let client = Client { env: env.clone(), address: address.clone() };
    (address, client)
}

fn fund_pool(usdc_admin_client: &StellarAssetClient, pool_address: &Address, amount: i128) {
    usdc_admin_client.mint(pool_address, &amount);
}

/// The events of the last invocation, as topics and data.
fn all_events(env: &Env) -> std::vec::Vec<(std::vec::Vec<Val>, Val)> {
    let mut events = std::vec::Vec::new();
    for event in env.events().all().events() {
        let ContractEventBody::V0(body) = &event.body;
        let topics = body.topics.iter().map(|t| Val::try_from_val(env, t).unwrap()).collect();
        events.push((topics, Val::try_from_val(env, &body.data).unwrap()));
    }
    events
}

fn name_of(env: &Env, topics: &[Val]) -> Symbol {
    Symbol::try_from_val(env, &topics[0]).unwrap()
}

#[test]
fn init_success() {
    let env = new_env();
    env.mock_all_auths();
    let admin = Address::generate(&env);
    let (_pool_addr, client) = create_pool(&env);
    let (usdc, _, _) = create_usdc(&env, &admin);

    client.init(&admin, &usdc);
    assert_eq!(client.get_admin(), admin);
    assert_eq!(client.balance(), 0);
}

#[test]
fn init_emits_event() {
    let env = new_env();
    env.mock_all_auths();
    let admin = Address::generate(&env);
    let (_, client) = create_pool(&env);
    let (usdc, _, _) = create_usdc(&env, &admin);

    client.init(&admin, &usdc);

    let events = all_events(&env);
    let init_event = events.last().unwrap();
    assert_eq!(name_of(&env, &init_event.0), Symbol::new(&env, "init"));
}

#[test]
#[should_panic(expected = "revenue pool already initialized")]
fn init_double_panics() {
    let env = new_env();
    env.mock_all_auths();
    let admin = Address::generate(&env);
    let (_, client) = create_pool(&env);
    let (usdc, _, _) = create_usdc(&env, &admin);

    client.init(&admin, &usdc);
    client.init(&admin, &usdc);
}

#[test]
#[should_panic(expected = "revenue pool already initialized")]
fn init_double_different_admin_panics() {
    let env = new_env();
    env.mock_all_auths();
    let admin = Address::generate(&env);
    let other_admin = Address::generate(&env);
    let (_, client) = create_pool(&env);
    let (usdc, _, _) = create_usdc(&env, &admin);
    let (usdc2, _, _) = create_usdc(&env, &other_admin);

    client.init(&admin, &usdc);
    client.init(&other_admin, &usdc2);
}

#[test]
#[should_panic(expected = "invalid config: usdc_token cannot be the contract itself")]
fn init_usdc_token_is_contract_panics() {
    let env = new_env();
    env.mock_all_auths();
    let admin = Address::generate(&env);
    let (pool_addr, client) = create_pool(&env);

    // Passing the contract's own address as usdc_token should be rejected.
    client.init(&admin, &pool_addr);
}

#[test]
#[should_panic(expected = "invalid config: usdc_token cannot be the admin address")]
fn init_usdc_token_is_admin_panics() {
    let env = new_env();
    env.mock_all_auths();
    let admin = Address::generate(&env);
    let (_, client) = create_pool(&env);

    // Passing the admin address as usdc_token should be rejected.
    client.init(&admin, &admin);
}

/// Verifies balance changes for both contract and recipient after a successful distribute call.
#[test]
fn test_distribute_success() {
    let env = new_env();
    env.mock_all_auths();
    let admin = Address::generate(&env);
    let recipient = Address::generate(&env);
    let (pool_addr, client) = create_pool(&env);
    let (usdc_address, usdc_client, usdc_admin) = create_usdc(&env, &admin);

    client.init(&admin, &usdc_address);
    fund_pool(&usdc_admin, &pool_addr, 1_000);

    client.distribute(&admin, &recipient, &350);
    let events = all_events(&env);

    // Contract balance reduced
    assert_eq!(usdc_client.balance(&pool_addr), 650);
    // Recipient received the funds
    assert_eq!(usdc_client.balance(&recipient), 350);

    // Verify distribute event was emitted
    let distribute_event = events.iter().find(|(topics, _)| {
        !topics.is_empty() && name_of(&env, topics) == Symbol::new(&env, "distribute")
    });
    assert!(distribute_event.is_some(), "expected distribute event");
    let (topics, data) = distribute_event.unwrap();
    let to_addr: Address = topics[1].try_into_val(&env).unwrap();
    let emitted_amount: i128 = i128::try_from_val(&env, data).unwrap();
    assert_eq!(to_addr, recipient);
    assert_eq!(emitted_amount, 350);
}

/// Ensures a non-admin call to distribute is refused.
#[test]
fn test_distribute_unauthorized() {
    let env = new_env();
    env.mock_all_auths();
    let admin = Address::generate(&env);
    let non_admin = Address::generate(&env);
    let recipient = Address::generate(&env);
    let (pool_addr, client) = create_pool(&env);
    let (usdc_address, _, usdc_admin) = create_usdc(&env, &admin);

    client.init(&admin, &usdc_address);
    fund_pool(&usdc_admin, &pool_addr, 500);

    let result = client.try_distribute(&non_admin, &recipient, &100);
    assert!(result.is_err(), "expected error for non-admin distribute");
}

/// Verifies the refusal when the contract holds less than requested.
#[test]
fn test_distribute_insufficient_funds() {
    let env = new_env();
    env.mock_all_auths();
    let admin = Address::generate(&env);
    let recipient = Address::generate(&env);
    let (pool_addr, client) = create_pool(&env);
    let (usdc_address, _, usdc_admin) = create_usdc(&env, &admin);

    client.init(&admin, &usdc_address);
    fund_pool(&usdc_admin, &pool_addr, 50);

    let result = client.try_distribute(&admin, &recipient, &51);
    assert!(result.is_err(), "expected error for insufficient balance");
}

/// Verifies distribute emits the correct event structure.
#[test]
fn distribute_emits_correct_event() {
    let env = new_env();
    env.mock_all_auths();
    let admin = Address::generate(&env);
    let recipient = Address::generate(&env);
    let (pool_addr, client) = create_pool(&env);
    let (usdc_address, _, usdc_admin) = create_usdc(&env, &admin);

    client.init(&admin, &usdc_address);
    fund_pool(&usdc_admin, &pool_addr, 500);
    client.distribute(&admin, &recipient, &200);

    let events = all_events(&env);
    let ev = events.iter().find(|(topics, _)| {
        !topics.is_empty() && name_of(&env, topics) == Symbol::new(&env, "distribute")
    });
    assert!(ev.is_some(), "distribute event not found");
    let (topics, data) = ev.unwrap();
    // topic 0: Symbol("distribute"), topic 1: to Address
    assert_eq!(topics.len(), 2);
    let to_addr: Address = topics[1].try_into_val(&env).unwrap();
    assert_eq!(to_addr, recipient);
    let amount: i128 = i128::try_from_val(&env, data).unwrap();
    assert_eq!(amount, 200);
}

#[test]
fn distribute_success() {
    let env = new_env();
    env.mock_all_auths();
    let admin = Address::generate(&env);
    let developer = Address::generate(&env);
    let (pool_addr, client) = create_pool(&env);
    let (usdc_address, usdc_client, usdc_admin) = create_usdc(&env, &admin);

    client.init(&admin, &usdc_address);
    fund_pool(&usdc_admin, &pool_addr, 1_000);
    client.distribute(&admin, &developer, &400);

    assert_eq!(usdc_client.balance(&pool_addr), 600);
    assert_eq!(usdc_client.balance(&developer), 400);
}

#[test]
#[should_panic(expected = "amount must be positive")]
fn distribute_zero_panics() {
    let env = new_env();
    env.mock_all_auths();
    let admin = Address::generate(&env);
    let developer = Address::generate(&env);
    let (_, client) = create_pool(&env);
    let (usdc, _, _) = create_usdc(&env, &admin);

    client.init(&admin, &usdc);
    client.distribute(&admin, &developer, &0);
}

#[test]
#[should_panic(expected = "insufficient USDC balance")]
fn distribute_excess_panics() {
    let env = new_env();
    env.mock_all_auths();
    let admin = Address::generate(&env);
    let developer = Address::generate(&env);
    let (pool_addr, client) = create_pool(&env);
    let (usdc_address, _, usdc_admin) = create_usdc(&env, &admin);

    client.init(&admin, &usdc_address);
    fund_pool(&usdc_admin, &pool_addr, 100);
    client.distribute(&admin, &developer, &101);
}

#[test]
fn set_admin_two_step_transfers_control() {
    let env = new_env();
    env.mock_all_auths();
    let admin = Address::generate(&env);
    let new_admin = Address::generate(&env);
    let developer = Address::generate(&env);
    let (pool_addr, client) = create_pool(&env);
    let (usdc_address, usdc_client, usdc_admin) = create_usdc(&env, &admin);

    client.init(&admin, &usdc_address);
    fund_pool(&usdc_admin, &pool_addr, 300);

    client.set_admin(&admin, &new_admin);
    assert_eq!(client.get_admin(), admin);

    client.claim_admin(&new_admin);
    assert_eq!(client.get_admin(), new_admin);

    client.distribute(&new_admin, &developer, &100);
    assert_eq!(usdc_client.balance(&developer), 100);
}

#[test]
fn admin_transfer_emits_events() {
    let env = new_env();
    env.mock_all_auths();
    let admin = Address::generate(&env);
    let new_admin = Address::generate(&env);
    let (_, client) = create_pool(&env);
    let (usdc, _, _) = create_usdc(&env, &admin);

    client.init(&admin, &usdc);

    // Step 1 event
    client.set_admin(&admin, &new_admin);
    let events = all_events(&env);
    let transfer_started = events.last().unwrap();
    assert_eq!(
        name_of(&env, &transfer_started.0),
        Symbol::new(&env, "admin_transfer_started")
    );

    // Step 2 event
    client.claim_admin(&new_admin);
    let events = all_events(&env);
    let transfer_completed = events.last().unwrap();
    assert_eq!(
        name_of(&env, &transfer_completed.0),
        Symbol::new(&env, "admin_transfer_completed")
    );
}

#[test]
fn batch_distribute_success() {
    let env = new_env();
    env.mock_all_auths();
    let admin = Address::generate(&env);
    let dev1 = Address::generate(&env);
    let dev2 = Address::generate(&env);
    let (pool_addr, client) = create_pool(&env);
    let (usdc_address, usdc_client, usdc_admin) = create_usdc(&env, &admin);

    client.init(&admin, &usdc_address);
    fund_pool(&usdc_admin, &pool_addr, 1000);

    let mut payments: Vec<(Address, i128)> = Vec::new(&env);
    payments.push_back((dev1.clone(), 300_i128));
    payments.push_back((dev2.clone(), 200_i128));
    client.batch_distribute(&admin, &payments);

    assert_eq!(usdc_client.balance(&dev1), 300);
    assert_eq!(usdc_client.balance(&dev2), 200);
    assert_eq!(client.balance(), 500);
}

#[test]
fn batch_distribute_success_events() {
    let env = new_env();
    env.mock_all_auths();
    let admin = Address::generate(&env);
    let dev1 = Address::generate(&env);
    let dev2 = Address::generate(&env);
    let (pool_addr, client) = create_pool(&env);
    let (usdc_address, _, usdc_admin) = create_usdc(&env, &admin);

    client.init(&admin, &usdc_address);
    fund_pool(&usdc_admin, &pool_addr, 1000);

    let mut payments: Vec<(Address, i128)> = Vec::new(&env);
    payments.push_back((dev1.clone(), 300_i128));
    payments.push_back((dev2.clone(), 200_i128));
    client.batch_distribute(&admin, &payments);

    let events = all_events(&env);
    assert!(events.len() >= 4);

    for (topics, data) in events.iter() {
        if let Ok(event_name) = Symbol::try_from_val(&env, &topics[0]) {
            if event_name == Symbol::new(&env, "batch_distribute") {
                let value: i128 = i128::try_from_val(&env, data).unwrap();
                assert!(value == 300 || value == 200);
            }
        }
    }
}

/// Runs a function of the contract inside an invocation, and gives back what it returns.
fn within<T>(env: &Env, pool: &Address, run: impl FnOnce(&mut Env) -> T) -> T {
    let mut host = env.clone();
    env.as_contract(pool, || run(&mut host))
}

fn refused<T>(error: PoolError) -> Result<T, PoolError> {
    Err(error)
}

/// An account, as opposed to a contract; it does not exist on the ledger.
fn account(env: &Env) -> Address {
    Address::from_str(env, "GA7QYNF7SOWQ3GLR2BGMZEHXAVIRZA4KVWLTJJFC7MGXUA74P7UJVSGZ")
}

/// A token that reports `held` for `holder` and something that is no amount for anyone
/// else, and that carries out transfers of at most `limit`.
struct OddToken {
    holder: Address,
    held: i128,
    limit: i128,
}

impl ContractFunctionSet for OddToken {
    fn call(&self, func: &str, env: Env, args: &[Val]) -> Option<Val> {
        match func {
            "balance" => {
                let holder: Address = arg(&env, args, 0);
                if holder == self.holder {
                    Some(self.held.into_val(&env))
                } else {
                    Some(Symbol::new(&env, "unknown").into_val(&env))
                }
            }
            "transfer" => {
                let amount: i128 = arg(&env, args, 2);
                if amount > self.limit {
                    panic!("refused");
                }
                Some(().into_val(&env))
            }
            _ => None,
        }
    }
}

struct Fixture<'a> {
    pool: Address,
    client: Client,
    admin: Address,
    usdc: Address,
    usdc_client: TokenClient<'a>,
    usdc_admin: StellarAssetClient<'a>,
}

/// A pool that is initialized and funded.
fn ready<'a>(env: &'a Env, funds: i128) -> Fixture<'a> {
    env.mock_all_auths();
    let admin = Address::generate(env);
    let (pool, client) = create_pool(env);
    let (usdc, usdc_client, usdc_admin) = create_usdc(env, &admin);
    client.init(&admin, &usdc);
    if funds > 0 {
        fund_pool(&usdc_admin, &pool, funds);
    }
    Fixture { pool, client, admin, usdc, usdc_client, usdc_admin }
}

fn batch(env: &Env, entries: &[(&Address, i128)]) -> Vec<(Address, i128)> {
    let mut payments = Vec::new(env);
    for (to, amount) in entries {
        payments.push_back(((*to).clone(), *amount));
    }
    payments
}

#[test]
fn init_event_names_admin_and_token() {
    let env = new_env();
    let f = ready(&env, 0);
    let (pool2, client2) = create_pool(&env);
    client2.init(&f.admin, &f.usdc);
    let events = all_events(&env);
    assert_eq!(events.len(), 1);
    let (topics, data) = &events[0];
    assert_eq!(topics.len(), 2);
    assert_eq!(name_of(&env, topics), Symbol::new(&env, "init"));
    assert_eq!(Address::try_from_val(&env, &topics[1]).unwrap(), f.admin);
    assert_eq!(Address::try_from_val(&env, data).unwrap(), f.usdc);
    assert_ne!(pool2, f.pool);
}

#[test]
fn admin_transfer_events_name_both_admins() {
    let env = new_env();
    let f = ready(&env, 0);
    let next = Address::generate(&env);

    f.client.set_admin(&f.admin, &next);
    let events = all_events(&env);
    assert_eq!(events.len(), 1);
    assert_eq!(events[0].0.len(), 2);
    assert_eq!(Address::try_from_val(&env, &events[0].0[1]).unwrap(), f.admin);
    assert_eq!(Address::try_from_val(&env, &events[0].1).unwrap(), next);

    f.client.claim_admin(&next);
    let events = all_events(&env);
    assert_eq!(events.len(), 1);
    assert_eq!(events[0].0.len(), 2);
    assert_eq!(Address::try_from_val(&env, &events[0].0[1]).unwrap(), next);
    assert!(<()>::try_from_val(&env, &events[0].1).is_ok());
}

#[test]
fn receive_payment_only_records() {
    let env = new_env();
    let f = ready(&env, 40);
    let mut args = args2(&env, &f.admin, -7_i128);
    args.push_back(true.into_val(&env));
    f.client.call::<()>("receive_payment", args);

    let events = all_events(&env);
    assert_eq!(events.len(), 1);
    let (topics, data) = &events[0];
    assert_eq!(topics.len(), 2);
    assert_eq!(name_of(&env, topics), Symbol::new(&env, "receive_payment"));
    assert_eq!(Address::try_from_val(&env, &topics[1]).unwrap(), f.admin);
    assert_eq!(<(i128, bool)>::try_from_val(&env, data).unwrap(), (-7, true));
    assert_eq!(f.client.balance(), 40);
    assert_eq!(f.client.get_admin(), f.admin);
}

#[test]
fn batch_makes_each_payment_and_then_its_event() {
    let env = new_env();
    let f = ready(&env, 10);
    let dev1 = Address::generate(&env);
    let dev2 = Address::generate(&env);
    f.client.batch_distribute(&f.admin, &batch(&env, &[(&dev1, 3), (&dev2, 4), (&dev1, 1)]));

    let events = all_events(&env);
    assert_eq!(events.len(), 6);
    let expected = [(&dev1, 3_i128), (&dev2, 4), (&dev1, 1)];
    for (i, (to, amount)) in expected.iter().enumerate() {
        let (transfer, _) = &events[2 * i];
        assert_eq!(name_of(&env, transfer), Symbol::new(&env, "transfer"));
        assert_eq!(Address::try_from_val(&env, &transfer[1]).unwrap(), f.pool);
        assert_eq!(Address::try_from_val(&env, &transfer[2]).unwrap(), **to);
        let (topics, data) = &events[2 * i + 1];
        assert_eq!(topics.len(), 2);
        assert_eq!(name_of(&env, topics), Symbol::new(&env, "batch_distribute"));
        assert_eq!(Address::try_from_val(&env, &topics[1]).unwrap(), **to);
        assert_eq!(i128::try_from_val(&env, data).unwrap(), *amount);
    }
    assert_eq!(f.usdc_client.balance(&dev1), 4);
    assert_eq!(f.usdc_client.balance(&dev2), 4);
    assert_eq!(f.client.balance(), 2);
}

#[test]
fn empty_batch_pays_nothing() {
    let env = new_env();
    let f = ready(&env, 10);
    f.client.batch_distribute(&f.admin, &batch(&env, &[]));
    assert_eq!(all_events(&env).len(), 0);
    assert_eq!(f.client.balance(), 10);
}

#[test]
fn calls_before_init_are_refused() {
    let env = new_env();
    env.mock_all_auths();
    let (pool, _) = create_pool(&env);
    let who = Address::generate(&env);
    let other = Address::generate(&env);
    let not_initialized = PoolError::NotInitialized;

    let admin = within(&env, &pool, |e| RevenuePool::get_admin(e));
    assert!(matches!(admin, Err(PoolError::NotInitialized)));
    assert_eq!(within(&env, &pool, RevenuePool::balance), refused(not_initialized));
    assert_eq!(
        within(&env, &pool, |e| RevenuePool::set_admin(e, who.clone(), other.clone())),
        refused(not_initialized)
    );
    assert_eq!(
        within(&env, &pool, |e| RevenuePool::receive_payment(e, who.clone(), 1, false)),
        refused(not_initialized)
    );
    assert_eq!(
        within(&env, &pool, |e| RevenuePool::distribute(e, who.clone(), other.clone(), 1)),
        refused(not_initialized)
    );
    assert_eq!(
        within(&env, &pool, |e| RevenuePool::batch_distribute(e, who.clone(), batch(&env, &[]))),
        refused(not_initialized)
    );
    assert_eq!(
        within(&env, &pool, |e| RevenuePool::claim_admin(e, who.clone())),
        refused(PoolError::NoPendingAdmin)
    );
}

#[test]
fn init_refusals_come_in_order() {
    let env = new_env();
    let f = ready(&env, 0);
    let other = Address::generate(&env);
    assert_eq!(
        within(&env, &f.pool, |e| RevenuePool::init(e, f.pool.clone(), f.pool.clone())),
        refused(PoolError::TokenIsContract)
    );
    assert_eq!(
        within(&env, &f.pool, |e| RevenuePool::init(e, other.clone(), other.clone())),
        refused(PoolError::TokenIsAdmin)
    );
    assert_eq!(
        within(&env, &f.pool, |e| RevenuePool::init(e, other.clone(), f.usdc.clone())),
        refused(PoolError::AlreadyInitialized)
    );
    assert_eq!(f.client.get_admin(), f.admin);
}

#[test]
fn only_the_admin_is_served() {
    let env = new_env();
    let f = ready(&env, 100);
    let stranger = Address::generate(&env);
    let unauthorized = PoolError::Unauthorized;
    assert_eq!(
        within(&env, &f.pool, |e| RevenuePool::set_admin(e, stranger.clone(), stranger.clone())),
        refused(unauthorized)
    );
    assert_eq!(
        within(&env, &f.pool, |e| RevenuePool::receive_payment(e, stranger.clone(), 1, true)),
        refused(unauthorized)
    );
    assert_eq!(
        within(&env, &f.pool, |e| RevenuePool::distribute(e, stranger.clone(), stranger.clone(), 0)),
        refused(unauthorized)
    );
    let payments = batch(&env, &[(&stranger, 1)]);
    assert_eq!(
        within(&env, &f.pool, |e| RevenuePool::batch_distribute(e, stranger.clone(), payments)),
        refused(unauthorized)
    );
    assert_eq!(f.client.balance(), 100);
    assert_eq!(f.client.get_admin(), f.admin);
}

#[test]
fn every_call_asks_for_the_callers_authorization() {
    let env = new_env();
    let f = ready(&env, 10);
    let dev = Address::generate(&env);
    f.client.distribute(&f.admin, &dev, &1);
    let auths = env.auths();
    assert_eq!(auths.len(), 1);
    assert_eq!(auths[0].0, f.admin);
}

#[test]
fn calls_without_authorization_do_not_go_through() {
    let env = new_env();
    let admin = Address::generate(&env);
    let (_, client) = create_pool(&env);
    let (usdc, _, _) = create_usdc(&env, &admin);
    assert!(!client.succeeds("init", args2(&env, &admin, &usdc)));
    env.mock_all_auths();
    assert!(client.succeeds("init", args2(&env, &admin, &usdc)));
    env.set_auths(&[]);
    assert!(!client.succeeds("set_admin", args2(&env, &admin, &usdc)));
    let dev = Address::generate(&env);
    assert!(client.try_distribute(&admin, &dev, &1).is_err());
}

#[test]
fn only_the_pending_admin_can_claim() {
    let env = new_env();
    let f = ready(&env, 5);
    let first = Address::generate(&env);
    let second = Address::generate(&env);
    assert_eq!(
        within(&env, &f.pool, |e| RevenuePool::claim_admin(e, f.admin.clone())),
        refused(PoolError::NoPendingAdmin)
    );
    f.client.set_admin(&f.admin, &first);
    assert_eq!(
        within(&env, &f.pool, |e| RevenuePool::claim_admin(e, second.clone())),
        refused(PoolError::NotPendingAdmin)
    );
    // A second offer takes the place of the first.
    f.client.set_admin(&f.admin, &second);
    assert_eq!(
        within(&env, &f.pool, |e| RevenuePool::claim_admin(e, first.clone())),
        refused(PoolError::NotPendingAdmin)
    );
    f.client.claim_admin(&second);
    assert_eq!(f.client.get_admin(), second);
    // The offer is used up.
    assert_eq!(
        within(&env, &f.pool, |e| RevenuePool::claim_admin(e, second.clone())),
        refused(PoolError::NoPendingAdmin)
    );
    // The former admin is turned away, the new one is served.
    assert_eq!(
        within(&env, &f.pool, |e| RevenuePool::distribute(e, f.admin.clone(), first.clone(), 1)),
        refused(PoolError::Unauthorized)
    );
    f.client.distribute(&second, &first, &1);
    assert_eq!(f.usdc_client.balance(&first), 1);
}

#[test]
fn the_token_stays_the_same() {
    let env = new_env();
    let f = ready(&env, 70);
    let next = Address::generate(&env);
    let (usdc2, _, usdc2_admin) = create_usdc(&env, &next);
    fund_pool(&usdc2_admin, &f.pool, 5);
    f.client.set_admin(&f.admin, &next);
    f.client.claim_admin(&next);
    assert_eq!(
        within(&env, &f.pool, |e| RevenuePool::init(e, next.clone(), usdc2.clone())),
        refused(PoolError::AlreadyInitialized)
    );
    assert_eq!(f.client.balance(), 70);
}

#[test]
fn amounts_have_to_be_positive() {
    let env = new_env();
    let f = ready(&env, 10);
    let dev = Address::generate(&env);
    for amount in [0, -1, i128::MIN] {
        assert_eq!(
            within(&env, &f.pool, |e| {
                RevenuePool::distribute(e, f.admin.clone(), dev.clone(), amount)
            }),
            refused(PoolError::AmountNotPositive)
        );
        let payments = batch(&env, &[(&dev, 1), (&dev, amount)]);
        assert_eq!(
            within(&env, &f.pool, |e| {
                RevenuePool::batch_distribute(e, f.admin.clone(), payments)
            }),
            refused(PoolError::AmountNotPositive)
        );
    }
    assert_eq!(f.usdc_client.balance(&dev), 0);
}

#[test]
fn the_pool_does_not_pay_itself() {
    let env = new_env();
    let f = ready(&env, 10);
    let other = Address::generate(&env);
    assert_eq!(
        within(&env, &f.pool, |e| RevenuePool::distribute(e, f.admin.clone(), f.pool.clone(), 1)),
        refused(PoolError::RecipientIsContract)
    );
    let payments = batch(&env, &[(&f.pool, 1)]);
    assert_eq!(
        within(&env, &f.pool, |e| RevenuePool::batch_distribute(e, f.admin.clone(), payments)),
        refused(PoolError::RecipientIsContract)
    );
    assert_eq!(
        RevenuePool::validate_recipient(&f.pool, &f.pool),
        refused(PoolError::RecipientIsContract)
    );
    assert_eq!(RevenuePool::validate_recipient(&other, &f.pool), Ok(()));
}

#[test]
fn a_batch_that_fails_halfway_is_undone() {
    let env = new_env();
    let f = ready(&env, 10);
    let dev = Address::generate(&env);
    let payments = batch(&env, &[(&dev, 3), (&f.pool, 2)]);
    assert!(!f.client.succeeds("batch_distribute", args2(&env, &f.admin, &payments)));
    assert_eq!(all_events(&env).len(), 0);
    assert_eq!(f.usdc_client.balance(&dev), 0);
    assert_eq!(f.client.balance(), 10);
}

#[test]
fn a_batch_comes_to_the_same_as_its_payments_one_by_one() {
    let env = new_env();
    env.mock_all_auths();
    let admin = Address::generate(&env);
    let dev1 = Address::generate(&env);
    let dev2 = Address::generate(&env);
    let mut outcomes = std::vec::Vec::new();
    // As a batch, as a batch in another order, and one by one in a third order.
    for way in 0..3 {
        let (pool, client) = create_pool(&env);
        let (usdc, usdc_client, usdc_admin) = create_usdc(&env, &admin);
        fund_pool(&usdc_admin, &pool, 100);
        client.init(&admin, &usdc);
        client.set_admin(&admin, &dev1);
        match way {
            0 => {
                let payments = batch(&env, &[(&dev1, 30), (&dev2, 5), (&dev1, 7)]);
                client.batch_distribute(&admin, &payments);
            }
            1 => {
                let payments = batch(&env, &[(&dev1, 7), (&dev1, 30), (&dev2, 5)]);
                client.batch_distribute(&admin, &payments);
            }
            _ => {
                client.distribute(&admin, &dev2, &5);
                client.distribute(&admin, &dev1, &7);
                client.distribute(&admin, &dev1, &30);
            }
        }
        let read = |key: &str| -> Option<Address> {
            env.as_contract(&pool, || env.storage().instance().get(&Symbol::new(&env, key)))
        };
        assert_eq!(read("admin"), Some(admin.clone()));
        assert_eq!(read("pending_admin"), Some(dev1.clone()));
        assert_eq!(read("usdc"), Some(usdc));
        outcomes.push((
            usdc_client.balance(&dev1),
            usdc_client.balance(&dev2),
            usdc_client.balance(&admin),
            client.balance(),
        ));
    }
    assert_eq!(outcomes, vec![(37, 5, 0, 58), (37, 5, 0, 58), (37, 5, 0, 58)]);
}

#[test]
fn a_former_admin_stays_turned_away() {
    let env = new_env();
    let f = ready(&env, 10);
    let second = Address::generate(&env);
    let third = Address::generate(&env);
    let dev = Address::generate(&env);
    let asks = |who: &Address| {
        within(&env, &f.pool, |e| RevenuePool::distribute(e, who.clone(), dev.clone(), 1))
    };
    f.client.set_admin(&f.admin, &second);
    f.client.claim_admin(&second);
    assert_eq!(asks(&f.admin), refused(PoolError::Unauthorized));
    // Later requests, accepted and refused ones, do not bring the former admin back.
    f.client.distribute(&second, &dev, &2);
    f.client.set_admin(&second, &f.admin);
    f.client.set_admin(&second, &third);
    assert_eq!(
        within(&env, &f.pool, |e| RevenuePool::claim_admin(e, f.admin.clone())),
        refused(PoolError::NotPendingAdmin)
    );
    assert_eq!(
        within(&env, &f.pool, |e| RevenuePool::init(e, f.admin.clone(), f.usdc.clone())),
        refused(PoolError::AlreadyInitialized)
    );
    assert_eq!(asks(&f.admin), refused(PoolError::Unauthorized));
    assert_eq!(f.client.get_admin(), second);
    // The admin is the caller of the last claim that succeeded.
    f.client.claim_admin(&third);
    assert_eq!(f.client.get_admin(), third);
    assert_eq!(asks(&second), refused(PoolError::Unauthorized));
    assert_eq!(asks(&third), Ok(()));
    f.client.set_admin(&third, &f.admin);
    f.client.claim_admin(&f.admin);
    assert_eq!(asks(&f.admin), Ok(()));
    assert_eq!(f.usdc_client.balance(&dev), 4);
}

#[test]
fn recipients_have_to_be_known_to_the_token() {
    let env = new_env();
    let f = ready(&env, 10);
    let nobody = account(&env);
    assert_eq!(
        within(&env, &f.pool, |e| RevenuePool::distribute(e, f.admin.clone(), nobody.clone(), 1)),
        refused(PoolError::UnknownRecipient)
    );
    assert_eq!(f.client.balance(), 10);
}

#[test]
fn funds_have_to_suffice() {
    let env = new_env();
    let f = ready(&env, 100);
    let dev = Address::generate(&env);
    assert_eq!(
        within(&env, &f.pool, |e| RevenuePool::distribute(e, f.admin.clone(), dev.clone(), 101)),
        refused(PoolError::InsufficientBalance)
    );
    let payments = batch(&env, &[(&dev, 60), (&dev, 41)]);
    assert_eq!(
        within(&env, &f.pool, |e| {
            RevenuePool::batch_distribute(e, f.admin.clone(), payments.clone())
        }),
        refused(PoolError::InsufficientBalance)
    );
    assert_eq!(f.usdc_client.balance(&dev), 0);
    // One more unit, sent by someone else, is enough.
    f.usdc_admin.mint(&f.pool, &1);
    f.client.batch_distribute(&f.admin, &payments);
    assert_eq!(f.usdc_client.balance(&dev), 101);
    assert_eq!(f.client.balance(), 0);
}

#[test]
fn totals_have_to_fit() {
    let env = new_env();
    let f = ready(&env, 10);
    let dev = Address::generate(&env);
    let payments = batch(&env, &[(&dev, i128::MAX), (&dev, 1)]);
    assert_eq!(total_of(&payments), refused(PoolError::TotalOverflow));
    assert_eq!(
        within(&env, &f.pool, |e| RevenuePool::batch_distribute(e, f.admin.clone(), payments)),
        refused(PoolError::TotalOverflow)
    );
    assert_eq!(total_of(&batch(&env, &[(&dev, i128::MAX - 1), (&dev, 1)])), Ok(i128::MAX));
    assert_eq!(total_of(&batch(&env, &[(&dev, 300), (&dev, 200)])), Ok(500));
    assert_eq!(total_of(&batch(&env, &[])), Ok(0));
}

#[test]
fn entries_have_to_be_payments() {
    let env = new_env();
    let f = ready(&env, 10);
    let dev = Address::generate(&env);
    let mut triple = args2(&env, &dev, 1_i128);
    triple.push_back(1_i128.into_val(&env));
    let odd: [Val; 4] = [
        7_u32.into_val(&env),
        triple.into_val(&env),
        args2(&env, 1_i128, &dev).into_val(&env),
        args2(&env, &dev, 7_u32).into_val(&env),
    ];
    for entry in odd {
        let mut raw: Vec<Val> = Vec::new(&env);
        raw.push_back(args2(&env, &dev, 1_i128).into_val(&env));
        raw.push_back(entry);
        let payments: Vec<(Address, i128)> = Vec::try_from_val(&env, &raw.to_val()).unwrap();
        assert_eq!(total_of(&payments), refused(PoolError::MalformedPayment));
        assert_eq!(
            within(&env, &f.pool, |e| RevenuePool::batch_distribute(e, f.admin.clone(), payments)),
            refused(PoolError::MalformedPayment)
        );
    }
}

#[test]
fn an_account_cannot_serve_as_the_token() {
    let env = new_env();
    env.mock_all_auths();
    let admin = Address::generate(&env);
    let dev = Address::generate(&env);
    let (pool, client) = create_pool(&env);
    client.init(&admin, &account(&env));
    let not_contract = PoolError::TokenNotContract;
    assert_eq!(within(&env, &pool, RevenuePool::balance), refused(not_contract));
    assert_eq!(
        within(&env, &pool, |e| RevenuePool::distribute(e, admin.clone(), dev.clone(), 1)),
        refused(not_contract)
    );
    let payments = batch(&env, &[(&dev, 1)]);
    assert_eq!(
        within(&env, &pool, |e| RevenuePool::batch_distribute(e, admin.clone(), payments)),
        refused(not_contract)
    );
}

#[test]
fn what_the_token_answers_decides() {
    let env = new_env();
    env.mock_all_auths();
    let admin = Address::generate(&env);
    let dev = Address::generate(&env);
    let (pool, client) = create_pool(&env);
    let token = env.register(OddToken { holder: pool.clone(), held: 50, limit: 20 }, ());
    client.init(&admin, &token);
    assert_eq!(client.balance(), 50);

    // Whatever comes back for the recipient, it is enough that the token answers.
    client.distribute(&admin, &dev, &20);
    let token_failed = PoolError::TokenFailed;
    assert_eq!(
        within(&env, &pool, |e| RevenuePool::distribute(e, admin.clone(), dev.clone(), 21)),
        refused(token_failed)
    );
    let payments = batch(&env, &[(&dev, 10), (&dev, 21)]);
    assert_eq!(
        within(&env, &pool, |e| RevenuePool::batch_distribute(e, admin.clone(), payments)),
        refused(token_failed)
    );

    // A balance of the pool that is no amount, and a token that is not there.
    let (pool2, client2) = create_pool(&env);
    client2.init(&admin, &token);
    assert_eq!(within(&env, &pool2, RevenuePool::balance), refused(token_failed));
    assert_eq!(
        within(&env, &pool2, |e| RevenuePool::distribute(e, admin.clone(), dev.clone(), 1)),
        refused(token_failed)
    );
    let (pool3, client3) = create_pool(&env);
    client3.init(&admin, &Address::generate(&env));
    assert_eq!(within(&env, &pool3, RevenuePool::balance), refused(token_failed));
    assert_eq!(
        within(&env, &pool3, |e| RevenuePool::distribute(e, admin.clone(), dev.clone(), 1)),
        refused(PoolError::UnknownRecipient)
    );
}

#[test]
fn what_is_kept_besides_an_address_is_no_admin() {
    let env = new_env();
    env.mock_all_auths();
    let who = Address::generate(&env);
    let usdc = Address::generate(&env);
    let (pool, _) = create_pool(&env);
    env.as_contract(&pool, || {
        env.storage().instance().set(&Symbol::new(&env, "admin"), &5_u32);
    });
    let admin = within(&env, &pool, |e| RevenuePool::get_admin(e));
    assert!(matches!(admin, Err(PoolError::NotInitialized)));
    assert_eq!(
        within(&env, &pool, |e| RevenuePool::init(e, who.clone(), usdc.clone())),
        refused(PoolError::AlreadyInitialized)
    );
}

#[test]
fn the_storage_holds_admin_offer_and_token() {
    let env = new_env();
    let f = ready(&env, 0);
    let next = Address::generate(&env);
    let read = |key: &str| -> Option<Address> {
        env.as_contract(&f.pool, || env.storage().instance().get(&Symbol::new(&env, key)))
    };
    assert_eq!(read("admin"), Some(f.admin.clone()));
    assert_eq!(read("usdc"), Some(f.usdc.clone()));
    assert_eq!(read("pending_admin"), None);
    f.client.set_admin(&f.admin, &next);
    assert_eq!(read("pending_admin"), Some(next.clone()));
    assert_eq!(read("admin"), Some(f.admin.clone()));
    f.client.claim_admin(&next);
    assert_eq!(read("pending_admin"), None);
    assert_eq!(read("admin"), Some(next));
    assert_eq!(read("usdc"), Some(f.usdc.clone()));
}

#[test]
fn other_entries_and_funds_are_left_alone() {
    let env = new_env();
    env.mock_all_auths();
    let admin = Address::generate(&env);
    let next = Address::generate(&env);
    let (pool, client) = create_pool(&env);
    let (usdc, usdc_client, usdc_admin) = create_usdc(&env, &admin);
    fund_pool(&usdc_admin, &pool, 9);
    env.as_contract(&pool, || {
        env.storage().instance().set(&Symbol::new(&env, "note"), &5_u32);
    });
    client.init(&admin, &usdc);
    client.set_admin(&admin, &next);
    client.claim_admin(&next);
    let note: Option<u32> =
        env.as_contract(&pool, || env.storage().instance().get(&Symbol::new(&env, "note")));
    assert_eq!(note, Some(5));
    assert_eq!(usdc_client.balance(&pool), 9);
}
