//! Contract execution support: the gas schedule, the gas meter and the
//! runtime's fixed parameters.

use vstd::prelude::*;
use vstd::string::StringExecFns;
use vstd::utf8::encode_utf8;
use crate::hashing::{decimal, hex_encode, hex_lower, push_bytes, push_decimal, sha256_digest, sha256_spec, str_eq};
use crate::consensus::{distinct, string_views};


verus! {

/// Gas cost of each metered operation.
#[derive(Clone, Copy, Debug)]
pub struct GasSchedule {
    pub base_execution: u64,
    pub storage_read: u64,
    pub storage_write: u64,
    pub storage_delete: u64,
    pub memory_alloc: u64,
    pub log: u64,
    pub emit: u64,
    pub hash: u64,
    pub balance_check: u64,
    pub account_age_check: u64,
    pub transfer: u64,
    pub mint: u64,
    pub burn: u64,
}

/// The node's standard prices.
pub open spec fn standard_schedule() -> GasSchedule {
    GasSchedule {
        base_execution: 1000,
        storage_read: 200,
        storage_write: 5000,
        storage_delete: 5000,
        memory_alloc: 3,
        log: 100,
        emit: 500,
        hash: 300,
        balance_check: 100,
        account_age_check: 100,
        transfer: 8000,
        mint: 6000,
        burn: 6000,
    }
}

/// The cost that `schedule` assigns to the operation named `op`, if it names one.
pub open spec fn op_cost(schedule: GasSchedule, op: Seq<char>) -> Option<u64> {
    if op == "base_execution"@ {
        Some(schedule.base_execution)
    } else if op == "storage_read"@ {
        Some(schedule.storage_read)
    } else if op == "storage_write"@ {
        Some(schedule.storage_write)
    } else if op == "storage_delete"@ {
        Some(schedule.storage_delete)
    } else if op == "memory_alloc"@ {
        Some(schedule.memory_alloc)
    } else if op == "log"@ {
        Some(schedule.log)
    } else if op == "emit"@ {
        Some(schedule.emit)
    } else if op == "hash"@ {
        Some(schedule.hash)
    } else if op == "balance_check"@ {
        Some(schedule.balance_check)
    } else if op == "account_age_check"@ {
        Some(schedule.account_age_check)
    } else if op == "transfer"@ {
        Some(schedule.transfer)
    } else if op == "mint"@ {
        Some(schedule.mint)
    } else if op == "burn"@ {
        Some(schedule.burn)
    } else {
        None
    }
}

/// The cost charged for `op`: its scheduled cost, or nothing for an unknown name.
pub open spec fn charged_cost(schedule: GasSchedule, op: Seq<char>) -> u64 {
    match op_cost(schedule, op) {
        Some(c) => c,
        None => 0,
    }
}

impl Default for GasSchedule {
    fn default() -> (s: Self)
        ensures
            s.base_execution == 0 && s.storage_read == 0 && s.storage_write == 0
                && s.storage_delete == 0 && s.memory_alloc == 0 && s.log == 0 && s.emit == 0
                && s.hash == 0 && s.balance_check == 0 && s.account_age_check == 0
                && s.transfer == 0 && s.mint == 0 && s.burn == 0,
    {
        GasSchedule {
            base_execution: 0,
            storage_read: 0,
            storage_write: 0,
            storage_delete: 0,
            memory_alloc: 0,
            log: 0,
            emit: 0,
            hash: 0,
            balance_check: 0,
            account_age_check: 0,
            transfer: 0,
            mint: 0,
            burn: 0,
        }
    }
}

impl GasSchedule {
    pub fn default_schedule() -> (s: Self)
        ensures
            s == standard_schedule(),
    {
        GasSchedule {
            base_execution: 1000,
            storage_read: 200,
            storage_write: 5000,
            storage_delete: 5000,
            memory_alloc: 3,
            log: 100,
            emit: 500,
            hash: 300,
            balance_check: 100,
            account_age_check: 100,
            transfer: 8000,
            mint: 6000,
            burn: 6000,
        }
    }

    pub fn get(&self, operation: &str) -> (c: Option<u64>)
        ensures
            c == op_cost(*self, operation@),
    {
        if str_eq(operation, "base_execution") {
            Some(self.base_execution)
        } else if str_eq(operation, "storage_read") {
            Some(self.storage_read)
        } else if str_eq(operation, "storage_write") {
            Some(self.storage_write)
        } else if str_eq(operation, "storage_delete") {
            Some(self.storage_delete)
        } else if str_eq(operation, "memory_alloc") {
            Some(self.memory_alloc)
        } else if str_eq(operation, "log") {
            Some(self.log)
        } else if str_eq(operation, "emit") {
            Some(self.emit)
        } else if str_eq(operation, "hash") {
            Some(self.hash)
        } else if str_eq(operation, "balance_check") {
            Some(self.balance_check)
        } else if str_eq(operation, "account_age_check") {
            Some(self.account_age_check)
        } else if str_eq(operation, "transfer") {
            Some(self.transfer)
        } else if str_eq(operation, "mint") {
            Some(self.mint)
        } else if str_eq(operation, "burn") {
            Some(self.burn)
        } else {
            None
        }
    }
}

/// Gas used so far against a limit, priced by a schedule.
#[derive(Clone, Copy, Debug)]
pub struct GasMeter {
    gas_used: u64,
    gas_limit: u64,
    schedule: GasSchedule,
}

impl GasMeter {
    pub closed spec fn used(&self) -> u64 {
        self.gas_used
    }

    pub closed spec fn limit(&self) -> u64 {
        self.gas_limit
    }

    pub closed spec fn prices(&self) -> GasSchedule {
        self.schedule
    }

    pub fn new(gas_limit: u64, schedule: GasSchedule) -> (m: Self)
        ensures
            m.used() == 0,
            m.limit() == gas_limit,
            m.prices() == schedule,
    {
        GasMeter { gas_used: 0, gas_limit, schedule }
    }

    /// Charges `multiplier` times the cost of `operation` (an unknown operation
    /// costs nothing) and tells whether the meter is still within its limit.
    pub fn charge(&mut self, operation: &str, multiplier: u64) -> (within: bool)
        requires
            charged_cost(old(self).prices(), operation@) * multiplier <= u64::MAX,
            old(self).used() + charged_cost(old(self).prices(), operation@) * multiplier <= u64::MAX,
        ensures
            final(self).used() == old(self).used() + charged_cost(old(self).prices(), operation@)
                * multiplier,
            final(self).limit() == old(self).limit(),
            final(self).prices() == old(self).prices(),
            within == (final(self).used() <= final(self).limit()),
    {
        let unit = match self.schedule.get(operation) {
            Some(c) => c,
            None => 0,
        };
        let cost = unit * multiplier;
        self.gas_used = self.gas_used + cost;
        self.gas_used <= self.gas_limit
    }

    /// Charges a fixed `amount` and tells whether the meter is still within its limit.
    pub fn charge_custom(&mut self, amount: u64) -> (within: bool)
        requires
            old(self).used() + amount <= u64::MAX,
        ensures
            final(self).used() == old(self).used() + amount,
            final(self).limit() == old(self).limit(),
            final(self).prices() == old(self).prices(),
            within == (final(self).used() <= final(self).limit()),
    {
        self.gas_used = self.gas_used + amount;
        self.gas_used <= self.gas_limit
    }

    pub fn gas_used(&self) -> (u: u64)
        ensures
            u == self.used(),
    {
        self.gas_used
    }

    pub fn gas_remaining(&self) -> (r: u64)
        ensures
            r == (if self.used() <= self.limit() { self.limit() - self.used() } else { 0 }),
    {
        self.gas_limit.saturating_sub(self.gas_used)
    }

    pub fn is_out_of_gas(&self) -> (b: bool)
        ensures
            b == (self.used() > self.limit()),
    {
        self.gas_used > self.gas_limit
    }
}

/// The gas limit a call gets when it names none.
pub const DEFAULT_GAS_LIMIT: u64 = 1_000_000;

/// The runtime's fixed parameters: its gas schedule and default gas limit.
pub struct ContractRuntime {
    schedule: GasSchedule,
    default_gas_limit: u64,
}

impl ContractRuntime {
    pub closed spec fn prices(&self) -> GasSchedule {
        self.schedule
    }

    pub closed spec fn default_limit(&self) -> u64 {
        self.default_gas_limit
    }

    pub fn new() -> (r: Self)
        ensures
            r.prices() == standard_schedule(),
            r.default_limit() == DEFAULT_GAS_LIMIT,
    {
        ContractRuntime { schedule: GasSchedule::default_schedule(), default_gas_limit: DEFAULT_GAS_LIMIT }
    }

    /// A fresh meter for one call: the given limit, or the default one.
    pub fn new_meter(&self, gas_limit: Option<u64>) -> (m: GasMeter)
        ensures
            m.used() == 0,
            m.prices() == self.prices(),
            m.limit() == (match gas_limit {
                Some(l) => l,
                None => self.default_limit(),
            }),
    {
        let limit = match gas_limit {
            Some(l) => l,
            None => self.default_gas_limit,
        };
        GasMeter::new(limit, self.schedule)
    }
}

impl Default for ContractRuntime {
    fn default() -> (r: Self)
        ensures
            r.prices() == standard_schedule(),
            r.default_limit() == DEFAULT_GAS_LIMIT,
    {
        Self::new()
    }
}


// ---------------------------------------------------------------------
// Contract identifiers
// ---------------------------------------------------------------------

/// The bytes hashed for a contract id: `rinku:contract:{creator}:{nonce}`.
pub open spec fn contract_id_preimage(creator: Seq<char>, nonce: u64) -> Seq<u8> {
    seq![114u8, 105u8, 110u8, 107u8, 117u8, 58u8, 99u8, 111u8, 110u8, 116u8, 114u8, 97u8, 99u8, 116u8, 58u8]
        + encode_utf8(creator) + seq![58u8] + decimal(nonce as nat)
}

/// A contract id: `sc_` and the hex of the first 20 bytes of the SHA-256 of
/// the preimage.
pub open spec fn contract_id_of(creator: Seq<char>, nonce: u64) -> Seq<char> {
    seq!['s', 'c', '_'] + hex_lower(sha256_spec(contract_id_preimage(creator, nonce)).take(20))
}

/// The id of the contract that `creator` deploys with `nonce`.
pub fn create_contract_id(creator: &str, nonce: u64) -> (id: String)
    ensures
        id@ == contract_id_of(creator@, nonce),
        id@.len() == 43,
{
    let mut data: Vec<u8> = vec![
        114u8, 105u8, 110u8, 107u8, 117u8, 58u8, 99u8, 111u8, 110u8, 116u8, 114u8, 97u8, 99u8,
        116u8, 58u8,
    ];
    push_bytes(&mut data, creator.as_bytes());
    data.push(58u8);
    push_decimal(&mut data, nonce);
    assert(data@ =~= contract_id_preimage(creator@, nonce));
    let digest = sha256_digest(data.as_slice());
    let mut head: Vec<u8> = Vec::new();
    let mut i: usize = 0;
    while i < 20
        invariant
            i <= 20,
            digest@.len() == 32,
            head@ == digest@.take(i as int),
        decreases 20 - i,
    {
        head.push(digest[i]);
        i = i + 1;
        assert(head@ =~= digest@.take(i as int));
    }
    let hex = hex_encode(head.as_slice());
    let mut id = String::from_str("sc_");
    proof {
        reveal_strlit("sc_");
    }
    id.append(hex.as_str());
    assert(id@ =~= contract_id_of(creator@, nonce));
    id
}


// ---------------------------------------------------------------------
// Built-in token contract: metering and outcome of a call
// ---------------------------------------------------------------------

/// The entrypoints of the built-in token contract.
#[derive(Clone, Copy, Debug, PartialEq, Eq, Structural)]
pub enum MockEntrypoint {
    Init,
    Transfer,
    Mint,
    Burn,
    GetBalance,
    Unknown,
}

/// How a call of the built-in token contract ends.
#[derive(Clone, Copy, Debug, PartialEq, Eq, Structural)]
pub enum MockOutcome {
    /// The base charge alone exceeded the limit.
    OutOfGasAtStart,
    /// `init` emitted its event.
    Initialized,
    /// The payer's balance did not cover the amount.
    InsufficientBalance,
    /// The charges of the state change exceeded the limit.
    OutOfGas,
    /// The balances were updated.
    Applied,
    /// A balance was read.
    BalanceRead,
    /// No such entrypoint.
    UnknownEntrypoint,
}

/// The outcome of a call and the gas it used.
#[derive(Clone, Copy, Debug)]
pub struct MockPlan {
    pub outcome: MockOutcome,
    pub gas_used: u64,
}

/// The entrypoint that `name` selects.
pub open spec fn entrypoint_of(name: Seq<char>) -> MockEntrypoint {
    if name == "init"@ {
        MockEntrypoint::Init
    } else if name == "transfer"@ {
        MockEntrypoint::Transfer
    } else if name == "mint"@ {
        MockEntrypoint::Mint
    } else if name == "burn"@ {
        MockEntrypoint::Burn
    } else if name == "get_balance"@ {
        MockEntrypoint::GetBalance
    } else {
        MockEntrypoint::Unknown
    }
}

/// Outcome and gas of a call of `e` under prices `p` and limit `limit`;
/// `covers` says whether the payer's balance covers the amount (transfer
/// and burn only).
pub open spec fn mock_plan(p: GasSchedule, e: MockEntrypoint, limit: u64, covers: bool) -> (MockOutcome, int) {
    let start = p.base_execution as int;
    let read = start + p.storage_read;
    if start > limit {
        (MockOutcome::OutOfGasAtStart, start)
    } else {
        match e {
            MockEntrypoint::Init => (MockOutcome::Initialized, read + p.emit),
            MockEntrypoint::Transfer => {
                let checked = read + p.balance_check;
                let moved = checked + p.transfer + 2 * p.storage_write;
                if !covers {
                    (MockOutcome::InsufficientBalance, checked + p.emit)
                } else if moved > limit {
                    (MockOutcome::OutOfGas, moved)
                } else {
                    (MockOutcome::Applied, moved + p.log + p.emit)
                }
            },
            MockEntrypoint::Mint => {
                let minted = read + p.mint + p.storage_write;
                if minted > limit {
                    (MockOutcome::OutOfGas, minted)
                } else {
                    (MockOutcome::Applied, minted + p.log + p.emit)
                }
            },
            MockEntrypoint::Burn => {
                let checked = read + p.balance_check;
                let burned = checked + p.burn + p.storage_write;
                if !covers {
                    (MockOutcome::InsufficientBalance, checked + p.emit)
                } else if burned > limit {
                    (MockOutcome::OutOfGas, burned)
                } else {
                    (MockOutcome::Applied, burned + p.log + p.emit)
                }
            },
            MockEntrypoint::GetBalance => (MockOutcome::BalanceRead, read + p.storage_read + p.log),
            MockEntrypoint::Unknown => (MockOutcome::UnknownEntrypoint, read),
        }
    }
}

/// The entrypoint that `name` selects.
pub fn classify_entrypoint(name: &str) -> (e: MockEntrypoint)
    ensures
        e == entrypoint_of(name@),
{
    if str_eq(name, "init") {
        MockEntrypoint::Init
    } else if str_eq(name, "transfer") {
        MockEntrypoint::Transfer
    } else if str_eq(name, "mint") {
        MockEntrypoint::Mint
    } else if str_eq(name, "burn") {
        MockEntrypoint::Burn
    } else if str_eq(name, "get_balance") {
        MockEntrypoint::GetBalance
    } else {
        MockEntrypoint::Unknown
    }
}

proof fn lemma_named_costs(p: GasSchedule)
    ensures
        charged_cost(p, "base_execution"@) == p.base_execution,
        charged_cost(p, "storage_read"@) == p.storage_read,
        charged_cost(p, "storage_write"@) == p.storage_write,
        charged_cost(p, "emit"@) == p.emit,
        charged_cost(p, "log"@) == p.log,
        charged_cost(p, "balance_check"@) == p.balance_check,
        charged_cost(p, "transfer"@) == p.transfer,
        charged_cost(p, "mint"@) == p.mint,
        charged_cost(p, "burn"@) == p.burn,
{
    reveal_strlit("base_execution");
    reveal_strlit("storage_read");
    reveal_strlit("storage_write");
    reveal_strlit("storage_delete");
    reveal_strlit("memory_alloc");
    reveal_strlit("log");
    reveal_strlit("emit");
    reveal_strlit("hash");
    reveal_strlit("balance_check");
    reveal_strlit("account_age_check");
    reveal_strlit("transfer");
    reveal_strlit("mint");
    reveal_strlit("burn");
    assert("storage_read"@.len() != "base_execution"@.len());
    assert("storage_write"@.len() != "base_execution"@.len());
    assert("storage_write"@.len() != "storage_read"@.len());
    assert("emit"@.len() != "base_execution"@.len());
    assert("emit"@.len() != "storage_read"@.len());
    assert("emit"@.len() != "storage_write"@.len());
    assert("emit"@.len() != "storage_delete"@.len());
    assert("emit"@.len() != "memory_alloc"@.len());
    assert("emit"@.len() != "log"@.len());
    assert("log"@.len() != "base_execution"@.len());
    assert("log"@.len() != "storage_read"@.len());
    assert("log"@.len() != "storage_write"@.len());
    assert("log"@.len() != "storage_delete"@.len());
    assert("log"@.len() != "memory_alloc"@.len());
    assert("balance_check"@.len() != "base_execution"@.len());
    assert("balance_check"@.len() != "storage_read"@.len());
    assert("balance_check"@[0] != "storage_write"@[0]);
    assert("balance_check"@.len() != "storage_delete"@.len());
    assert("balance_check"@.len() != "memory_alloc"@.len());
    assert("balance_check"@.len() != "log"@.len());
    assert("balance_check"@.len() != "emit"@.len());
    assert("balance_check"@.len() != "hash"@.len());
    assert("transfer"@.len() != "base_execution"@.len());
    assert("transfer"@.len() != "storage_read"@.len());
    assert("transfer"@.len() != "storage_write"@.len());
    assert("transfer"@.len() != "storage_delete"@.len());
    assert("transfer"@.len() != "memory_alloc"@.len());
    assert("transfer"@.len() != "log"@.len());
    assert("transfer"@.len() != "emit"@.len());
    assert("transfer"@.len() != "hash"@.len());
    assert("transfer"@.len() != "balance_check"@.len());
    assert("transfer"@.len() != "account_age_check"@.len());
    assert("mint"@.len() != "base_execution"@.len());
    assert("mint"@.len() != "storage_read"@.len());
    assert("mint"@.len() != "storage_write"@.len());
    assert("mint"@.len() != "storage_delete"@.len());
    assert("mint"@.len() != "memory_alloc"@.len());
    assert("mint"@.len() != "log"@.len());
    assert("mint"@[0] != "emit"@[0]);
    assert("mint"@[0] != "hash"@[0]);
    assert("mint"@.len() != "balance_check"@.len());
    assert("mint"@.len() != "account_age_check"@.len());
    assert("mint"@.len() != "transfer"@.len());
    assert("burn"@.len() != "base_execution"@.len());
    assert("burn"@.len() != "storage_read"@.len());
    assert("burn"@.len() != "storage_write"@.len());
    assert("burn"@.len() != "storage_delete"@.len());
    assert("burn"@.len() != "memory_alloc"@.len());
    assert("burn"@.len() != "log"@.len());
    assert("burn"@[0] != "emit"@[0]);
    assert("burn"@[0] != "hash"@[0]);
    assert("burn"@.len() != "balance_check"@.len());
    assert("burn"@.len() != "account_age_check"@.len());
    assert("burn"@.len() != "transfer"@.len());
    assert("burn"@[0] != "mint"@[0]);
}

impl ContractRuntime {
    /// Meters a call of the built-in token contract: the base charge and a
    /// storage read, then the entrypoint's own charges, stopping where a
    /// check finds the balance short or the meter over its limit.
    pub fn plan_mock_call(&self, entrypoint: MockEntrypoint, gas_limit: Option<u64>, balance_covers: bool) -> (plan: MockPlan)
        requires
            self.prices() == standard_schedule(),
        ensures
            ({
                let limit = match gas_limit {
                    Some(l) => l,
                    None => self.default_limit(),
                };
                let expected = mock_plan(self.prices(), entrypoint, limit, balance_covers);
                plan.outcome == expected.0 && plan.gas_used == expected.1
            }),
    {
        proof { lemma_named_costs(self.prices()); }
        let mut meter = self.new_meter(gas_limit);
        meter.charge("base_execution", 1);
        if meter.is_out_of_gas() {
            return MockPlan { outcome: MockOutcome::OutOfGasAtStart, gas_used: meter.gas_used() };
        }
        meter.charge("storage_read", 1);
        match entrypoint {
            MockEntrypoint::Init => {
                meter.charge("emit", 1);
                MockPlan { outcome: MockOutcome::Initialized, gas_used: meter.gas_used() }
            },
            MockEntrypoint::Transfer => {
                meter.charge("balance_check", 1);
                if !balance_covers {
                    meter.charge("emit", 1);
                    return MockPlan { outcome: MockOutcome::InsufficientBalance, gas_used: meter.gas_used() };
                }
                meter.charge("transfer", 1);
                meter.charge("storage_write", 2);
                if meter.is_out_of_gas() {
                    return MockPlan { outcome: MockOutcome::OutOfGas, gas_used: meter.gas_used() };
                }
                meter.charge("log", 1);
                meter.charge("emit", 1);
                MockPlan { outcome: MockOutcome::Applied, gas_used: meter.gas_used() }
            },
            MockEntrypoint::Mint => {
                meter.charge("mint", 1);
                meter.charge("storage_write", 1);
                if meter.is_out_of_gas() {
                    return MockPlan { outcome: MockOutcome::OutOfGas, gas_used: meter.gas_used() };
                }
                meter.charge("log", 1);
                meter.charge("emit", 1);
                MockPlan { outcome: MockOutcome::Applied, gas_used: meter.gas_used() }
            },
            MockEntrypoint::Burn => {
                meter.charge("balance_check", 1);
                if !balance_covers {
                    meter.charge("emit", 1);
                    return MockPlan { outcome: MockOutcome::InsufficientBalance, gas_used: meter.gas_used() };
                }
                meter.charge("burn", 1);
                meter.charge("storage_write", 1);
                if meter.is_out_of_gas() {
                    return MockPlan { outcome: MockOutcome::OutOfGas, gas_used: meter.gas_used() };
                }
                meter.charge("log", 1);
                meter.charge("emit", 1);
                MockPlan { outcome: MockOutcome::Applied, gas_used: meter.gas_used() }
            },
            MockEntrypoint::GetBalance => {
                meter.charge("storage_read", 1);
                meter.charge("log", 1);
                MockPlan { outcome: MockOutcome::BalanceRead, gas_used: meter.gas_used() }
            },
            MockEntrypoint::Unknown => {
                MockPlan { outcome: MockOutcome::UnknownEntrypoint, gas_used: meter.gas_used() }
            },
        }
    }
}


// ---------------------------------------------------------------------
// Contract state hash
// ---------------------------------------------------------------------

/// `a` sorts before `b`, byte by byte (a proper prefix sorts first).
pub open spec fn bytes_lt(a: Seq<u8>, b: Seq<u8>) -> bool
    decreases a.len(),
{
    if a.len() == 0 {
        b.len() > 0
    } else if b.len() == 0 {
        false
    } else if a[0] != b[0] {
        a[0] < b[0]
    } else {
        bytes_lt(a.drop_first(), b.drop_first())
    }
}

/// The sort key of a state entry: the UTF-8 bytes of its key.
pub open spec fn entry_key(e: (Seq<char>, Seq<char>)) -> Seq<u8> {
    encode_utf8(e.0)
}

/// Entries in strictly ascending key order.
pub open spec fn keys_ascending(s: Seq<(Seq<char>, Seq<char>)>) -> bool {
    forall|i: int, j: int| 0 <= i < j < s.len() ==> bytes_lt(entry_key(s[i]), entry_key(s[j]))
}

/// `p` holds the entries of `s` in ascending key order.
pub open spec fn is_sorted_perm(s: Seq<(Seq<char>, Seq<char>)>, p: Seq<(Seq<char>, Seq<char>)>) -> bool {
    keys_ascending(p) && p.to_multiset() == s.to_multiset()
}

/// The text `key:value` of one entry, as bytes.
pub open spec fn entry_text(e: (Seq<char>, Seq<char>)) -> Seq<u8> {
    encode_utf8(e.0) + seq![58u8] + encode_utf8(e.1)
}

/// The entries' texts joined by commas.
pub open spec fn joined_entries(s: Seq<(Seq<char>, Seq<char>)>) -> Seq<u8>
    decreases s.len(),
{
    if s.len() == 0 {
        Seq::empty()
    } else if s.len() == 1 {
        entry_text(s[0])
    } else {
        joined_entries(s.drop_last()) + seq![44u8] + entry_text(s.last())
    }
}

/// The 32-bit string hash `h = 31 h + byte` (wrapping) over `bytes`.
pub open spec fn string_hash(bytes: Seq<u8>) -> nat
    decreases bytes.len(),
{
    if bytes.len() == 0 {
        0
    } else {
        ((31 * string_hash(bytes.drop_last()) + bytes.last()) % 0x1_0000_0000) as nat
    }
}

/// The four bytes of a 32-bit value, most significant first.
pub open spec fn be4(h: nat) -> Seq<u8> {
    seq![((h / 0x100_0000) % 256) as u8, ((h / 0x1_0000) % 256) as u8, ((h / 0x100) % 256) as u8, (h % 256) as u8]
}

/// The state hash text of entries in the given order.
pub open spec fn state_hash_text(p: Seq<(Seq<char>, Seq<char>)>) -> Seq<char> {
    hex_lower(be4(string_hash(joined_entries(p))))
}

/// The entries' views.
pub open spec fn entry_views(entries: Seq<(String, String)>) -> Seq<(Seq<char>, Seq<char>)> {
    entries.map_values(|e: (String, String)| (e.0@, e.1@))
}

pub(crate) proof fn lemma_bytes_lt_irreflexive(a: Seq<u8>)
    ensures
        !bytes_lt(a, a),
    decreases a.len(),
{
    if a.len() > 0 {
        lemma_bytes_lt_irreflexive(a.drop_first());
    }
}

pub(crate) proof fn lemma_bytes_lt_asymmetric(a: Seq<u8>, b: Seq<u8>)
    ensures
        !(bytes_lt(a, b) && bytes_lt(b, a)),
    decreases a.len(),
{
    if a.len() > 0 && b.len() > 0 && a[0] == b[0] {
        lemma_bytes_lt_asymmetric(a.drop_first(), b.drop_first());
    }
}

pub(crate) proof fn lemma_bytes_lt_transitive(a: Seq<u8>, b: Seq<u8>, c: Seq<u8>)
    requires
        bytes_lt(a, b),
        bytes_lt(b, c),
    ensures
        bytes_lt(a, c),
    decreases a.len(),
{
    if a.len() > 0 && b.len() > 0 && c.len() > 0 && a[0] == b[0] && b[0] == c[0] {
        lemma_bytes_lt_transitive(a.drop_first(), b.drop_first(), c.drop_first());
    }
}

pub(crate) proof fn lemma_bytes_lt_total(a: Seq<u8>, b: Seq<u8>)
    requires
        a != b,
    ensures
        bytes_lt(a, b) || bytes_lt(b, a),
    decreases a.len(),
{
    if a.len() == 0 {
        if b.len() == 0 {
            assert(a =~= b);
        }
    } else if b.len() > 0 && a[0] == b[0] {
        if a.drop_first() == b.drop_first() {
            assert(a =~= seq![a[0]] + a.drop_first());
            assert(b =~= seq![b[0]] + b.drop_first());
        }
        lemma_bytes_lt_total(a.drop_first(), b.drop_first());
    }
}

/// Law: entries with distinct keys have exactly one arrangement in
/// ascending key order.
pub proof fn lemma_sorted_perm_unique(
    s: Seq<(Seq<char>, Seq<char>)>,
    p: Seq<(Seq<char>, Seq<char>)>,
    q: Seq<(Seq<char>, Seq<char>)>,
)
    requires
        is_sorted_perm(s, p),
        is_sorted_perm(s, q),
    ensures
        p == q,
    decreases p.len(),
{
    broadcast use vstd::seq_lib::group_to_multiset_ensures;

    assert(p.len() == p.to_multiset().len());
    assert(q.len() == q.to_multiset().len());
    if p.len() == 0 {
        assert(p =~= q);
    } else {
        assert(p.contains(p[0]));
        assert(p.to_multiset().count(p[0]) > 0);
        assert(q.contains(p[0]));
        let k = choose|k: int| 0 <= k < q.len() && q[k] == p[0];
        assert(q.contains(q[0]));
        assert(q.to_multiset().count(q[0]) > 0);
        assert(p.contains(q[0]));
        let m = choose|m: int| 0 <= m < p.len() && p[m] == q[0];
        if k != 0 {
            assert(bytes_lt(entry_key(q[0]), entry_key(q[k])));
            if m == 0 {
                lemma_bytes_lt_irreflexive(entry_key(q[0]));
            } else {
                assert(bytes_lt(entry_key(p[0]), entry_key(p[m])));
                lemma_bytes_lt_asymmetric(entry_key(p[0]), entry_key(q[0]));
            }
        }
        assert(p[0] == q[0]);
        assert(p.remove(0) =~= p.drop_first());
        assert(q.remove(0) =~= q.drop_first());
        let rest = s.to_multiset().remove(p[0]);
        assert(p.drop_first().to_multiset() == rest);
        assert(q.drop_first().to_multiset() == rest);
        let s2 = p.drop_first();
        assert(keys_ascending(s2)) by {
            assert forall|i: int, j: int| 0 <= i < j < s2.len() implies bytes_lt(
                entry_key(s2[i]),
                entry_key(s2[j]),
            ) by {
                assert(s2[i] == p[i + 1]);
                assert(s2[j] == p[j + 1]);
            }
        }
        let q2 = q.drop_first();
        assert(keys_ascending(q2)) by {
            assert forall|i: int, j: int| 0 <= i < j < q2.len() implies bytes_lt(
                entry_key(q2[i]),
                entry_key(q2[j]),
            ) by {
                assert(q2[i] == q[i + 1]);
                assert(q2[j] == q[j + 1]);
            }
        }
        assert(is_sorted_perm(s2, s2));
        assert(is_sorted_perm(s2, q2));
        lemma_sorted_perm_unique(s2, s2, q2);
        assert(p =~= seq![p[0]] + s2);
        assert(q =~= seq![q[0]] + q2);
    }
}


proof fn lemma_bytes_lt_skip(a: Seq<u8>, b: Seq<u8>, i: int)
    requires
        0 <= i < a.len(),
        i < b.len(),
        a[i] == b[i],
    ensures
        bytes_lt(a.skip(i), b.skip(i)) == bytes_lt(a.skip(i + 1), b.skip(i + 1)),
{
    assert(a.skip(i).drop_first() =~= a.skip(i + 1));
    assert(b.skip(i).drop_first() =~= b.skip(i + 1));
}

/// Whether key `a` sorts before key `b` (byte order of their UTF-8).
pub(crate) fn key_before(a: &str, b: &str) -> (r: bool)
    ensures
        r == bytes_lt(encode_utf8(a@), encode_utf8(b@)),
{
    let x = a.as_bytes();
    let y = b.as_bytes();
    assert(x@.skip(0) =~= x@);
    assert(y@.skip(0) =~= y@);
    let mut i: usize = 0;
    while i < x.len() && i < y.len()
        invariant
            i <= x@.len(),
            i <= y@.len(),
            x@ == encode_utf8(a@),
            y@ == encode_utf8(b@),
            bytes_lt(x@, y@) == bytes_lt(x@.skip(i as int), y@.skip(i as int)),
        decreases x@.len() - i,
    {
        if x[i] != y[i] {
            return x[i] < y[i];
        }
        proof { lemma_bytes_lt_skip(x@, y@, i as int); }
        i = i + 1;
    }
    i < y.len()
}

/// The entries in ascending key order.
fn sort_entries(entries: &[(String, String)]) -> (out: Vec<(String, String)>)
    requires
        forall|i: int, j: int|
            0 <= i < j < entries@.len() ==> entries@[i].0@ != entries@[j].0@,
    ensures
        is_sorted_perm(entry_views(entries@), entry_views(out@)),
{
    broadcast use vstd::seq_lib::group_to_multiset_ensures;
    broadcast use vstd::utf8::encode_utf8_decode_utf8;

    let ghost src = entry_views(entries@);
    let mut out: Vec<(String, String)> = Vec::new();
    let mut i: usize = 0;
    assert(src.take(0) =~= Seq::<(Seq<char>, Seq<char>)>::empty());
    assert(entry_views(out@) =~= Seq::<(Seq<char>, Seq<char>)>::empty());
    while i < entries.len()
        invariant
            i <= entries@.len(),
            src == entry_views(entries@),
            forall|a: int, b: int| 0 <= a < b < entries@.len() ==> entries@[a].0@ != entries@[b].0@,
            keys_ascending(entry_views(out@)),
            entry_views(out@).to_multiset() == src.take(i as int).to_multiset(),
        decreases entries@.len() - i,
    {
        let key = entries[i].0.clone();
        let value = entries[i].1.clone();
        let ghost e = (key@, value@);
        assert(e == src[i as int]);
        let ghost cur = entry_views(out@);
        let mut p: usize = 0;
        loop
            invariant
                p <= out@.len(),
                cur == entry_views(out@),
                key@ == e.0,
                forall|k: int| 0 <= k < p ==> !bytes_lt(entry_key(e), #[trigger] entry_key(cur[k])),
            ensures
                p <= out@.len(),
                p < out@.len() ==> bytes_lt(entry_key(e), entry_key(cur[p as int])),
                forall|k: int| 0 <= k < p ==> !bytes_lt(entry_key(e), #[trigger] entry_key(cur[k])),
            decreases out@.len() - p,
        {
            if p >= out.len() {
                break;
            }
            let before = key_before(key.as_str(), out[p].0.as_str());
            proof {
                assert(cur[p as int] == (out@[p as int].0@, out@[p as int].1@));
            }
            if before {
                break;
            }
            p = p + 1;
        }
        proof {
            assert forall|k: int| 0 <= k < cur.len() implies entry_key(#[trigger] cur[k]) != entry_key(e) by {
                assert(cur.contains(cur[k]));
                vstd::seq_lib::to_multiset_contains(cur, cur[k]);
                vstd::seq_lib::to_multiset_contains(src.take(i as int), cur[k]);
                assert(src.take(i as int).contains(cur[k]));
                let j = choose|j: int| 0 <= j < i && src.take(i as int)[j] == cur[k];
                assert(src[j] == cur[k]);
                assert(entries@[j].0@ != entries@[i as int].0@);
                vstd::utf8::encode_utf8_decode_utf8(cur[k].0);
                vstd::utf8::encode_utf8_decode_utf8(e.0);
            }
        }
        out.insert(p, (key, value));
        proof {
            let nv = entry_views(out@);
            assert(nv =~= cur.insert(p as int, e));
            assert forall|a: int, b: int| 0 <= a < b < nv.len() implies bytes_lt(entry_key(nv[a]), entry_key(nv[b])) by {
                if b < p {
                    assert(nv[a] == cur[a] && nv[b] == cur[b]);
                } else if b == p {
                    assert(nv[a] == cur[a]);
                    assert(!bytes_lt(entry_key(e), entry_key(cur[a])));
                    lemma_bytes_lt_total(entry_key(e), entry_key(cur[a]));
                } else if a == p {
                    assert(nv[b] == cur[b - 1]);
                    assert(bytes_lt(entry_key(e), entry_key(cur[p as int])));
                    if b - 1 > p {
                        lemma_bytes_lt_transitive(entry_key(e), entry_key(cur[p as int]), entry_key(cur[b - 1]));
                    }
                } else if a < p {
                    assert(nv[a] == cur[a] && nv[b] == cur[b - 1]);
                } else {
                    assert(nv[a] == cur[a - 1] && nv[b] == cur[b - 1]);
                }
            }
            assert(src.take(i + 1) =~= src.take(i as int).push(e));
            vstd::seq_lib::to_multiset_insert(cur, p as int, e);
            vstd::seq_lib::to_multiset_build(src.take(i as int), e);
        }
        i = i + 1;
    }
    proof {
        assert(src.take(entries@.len() as int) =~= src);
    }
    out
}

/// The state hash does not depend on the order the entries come in: two
/// lists with the same entries hash alike.
pub proof fn lemma_state_hash_order_free(
    s1: Seq<(Seq<char>, Seq<char>)>,
    s2: Seq<(Seq<char>, Seq<char>)>,
    p1: Seq<(Seq<char>, Seq<char>)>,
    p2: Seq<(Seq<char>, Seq<char>)>,
)
    requires
        s1.to_multiset() == s2.to_multiset(),
        is_sorted_perm(s1, p1),
        is_sorted_perm(s2, p2),
    ensures
        state_hash_text(p1) == state_hash_text(p2),
{
    lemma_sorted_perm_unique(s1, p1, p2);
}

/// The contract state hash: the entries `key:value` (the value as its JSON
/// text) in ascending key order, joined by commas, hashed with the 32-bit
/// `31 h + byte` string hash and written as eight hex digits.
pub fn compute_state_hash(entries: &[(String, String)]) -> (h: String)
    requires
        forall|i: int, j: int|
            0 <= i < j < entries@.len() ==> entries@[i].0@ != entries@[j].0@,
    ensures
        exists|p: Seq<(Seq<char>, Seq<char>)>| is_sorted_perm(entry_views(entries@), p),
        forall|p: Seq<(Seq<char>, Seq<char>)>|
            is_sorted_perm(entry_views(entries@), p) ==> h@ == state_hash_text(p),
{
    let sorted = sort_entries(entries);
    let ghost sv = entry_views(sorted@);
    let mut data: Vec<u8> = Vec::new();
    let mut i: usize = 0;
    assert(sv.take(0) =~= Seq::<(Seq<char>, Seq<char>)>::empty());
    while i < sorted.len()
        invariant
            i <= sorted@.len(),
            sv == entry_views(sorted@),
            data@ == joined_entries(sv.take(i as int)),
        decreases sorted@.len() - i,
    {
        let ghost before = data@;
        if i > 0 {
            data.push(44u8);
        }
        push_bytes(&mut data, sorted[i].0.as_str().as_bytes());
        data.push(58u8);
        push_bytes(&mut data, sorted[i].1.as_str().as_bytes());
        proof {
            let t = sv.take(i + 1);
            assert(t.drop_last() =~= sv.take(i as int));
            assert(t.last() == sv[i as int]);
            if i == 0 {
                assert(data@ =~= entry_text(sv[0]));
            } else {
                assert(data@ =~= before + seq![44u8] + entry_text(sv[i as int]));
            }
        }
        i = i + 1;
    }
    assert(sv.take(sorted@.len() as int) =~= sv);
    let mut hash: u32 = 0;
    let mut j: usize = 0;
    assert(data@.take(0) =~= Seq::<u8>::empty());
    while j < data.len()
        invariant
            j <= data@.len(),
            hash == string_hash(data@.take(j as int)),
        decreases data@.len() - j,
    {
        proof {
            assert(data@.take(j + 1).drop_last() =~= data@.take(j as int));
            assert(data@.take(j + 1).last() == data@[j as int]);
        }
        hash = ((hash as u64 * 31 + data[j] as u64) % 0x1_0000_0000) as u32;
        j = j + 1;
    }
    assert(data@.take(data@.len() as int) =~= data@);
    let be: Vec<u8> = vec![
        ((hash / 0x100_0000) % 256) as u8,
        ((hash / 0x1_0000) % 256) as u8,
        ((hash / 0x100) % 256) as u8,
        (hash % 256) as u8,
    ];
    assert(be@ =~= be4(hash as nat));
    let text = hex_encode(be.as_slice());
    proof {
        assert forall|p: Seq<(Seq<char>, Seq<char>)>| is_sorted_perm(entry_views(entries@), p) implies text@
            == state_hash_text(p) by {
            lemma_sorted_perm_unique(entry_views(entries@), p, sv);
        }
    }
    text
}


/// The last position of `entries` with key `key`, or -1.
pub open spec fn key_pos(entries: Seq<(Seq<char>, Seq<char>)>, key: Seq<char>) -> int
    decreases entries.len(),
{
    if entries.len() == 0 {
        -1
    } else if entries.last().0 == key {
        entries.len() - 1
    } else {
        key_pos(entries.drop_last(), key)
    }
}

/// The value text that `entries` holds for `key`, if any.
pub open spec fn lookup_entry(entries: Seq<(Seq<char>, Seq<char>)>, key: Seq<char>) -> Option<Seq<char>> {
    let i = key_pos(entries, key);
    if i >= 0 { Some(entries[i].1) } else { None }
}

proof fn lemma_key_pos(s: Seq<(Seq<char>, Seq<char>)>, key: Seq<char>)
    ensures
        -1 <= key_pos(s, key) < s.len(),
        key_pos(s, key) >= 0 ==> s[key_pos(s, key)].0 == key,
        forall|k: int| key_pos(s, key) < k < s.len() ==> (#[trigger] s[k]).0 != key,
    decreases s.len(),
{
    if s.len() > 0 && s.last().0 != key {
        lemma_key_pos(s.drop_last(), key);
        assert forall|k: int| key_pos(s, key) < k < s.len() implies (#[trigger] s[k]).0 != key by {
            if k < s.len() - 1 {
                assert(s[k] == s.drop_last()[k]);
            }
        }
    }
}

/// Keys whose value text differs between two states (present in one only counts).
pub open spec fn changed_key(
    old: Seq<(Seq<char>, Seq<char>)>,
    new: Seq<(Seq<char>, Seq<char>)>,
    key: Seq<char>,
) -> bool {
    lookup_entry(old, key) != lookup_entry(new, key)
}

proof fn lemma_find_entry(s: Seq<(Seq<char>, Seq<char>)>, key: Seq<char>, i: int)
    requires
        -1 <= i < s.len(),
        i >= 0 ==> s[i].0 == key,
        forall|k: int| i < k < s.len() ==> (#[trigger] s[k]).0 != key,
    ensures
        key_pos(s, key) == i,
{
    lemma_key_pos(s, key);
}

/// The position of `key` in `entries`, searching from the back.
fn find_key(entries: &[(String, String)], key: &str) -> (r: Option<usize>)
    ensures
        match r {
            Some(i) => i == key_pos(entry_views(entries@), key@),
            None => key_pos(entry_views(entries@), key@) == -1,
        },
{
    let ghost v = entry_views(entries@);
    let mut i = entries.len();
    while i > 0
        invariant
            i <= entries@.len(),
            v == entry_views(entries@),
            forall|k: int| i <= k < v.len() ==> (#[trigger] v[k]).0 != key@,
        decreases i,
    {
        i = i - 1;
        if str_eq(entries[i].0.as_str(), key) {
            proof { lemma_find_entry(v, key@, i as int); }
            return Some(i);
        }
    }
    proof { lemma_find_entry(v, key@, -1); }
    None
}

/// No two entries share a key.
pub open spec fn keys_distinct(entries: Seq<(String, String)>) -> bool {
    forall|i: int, j: int| 0 <= i < j < entries.len() ==> entries[i].0@ != entries[j].0@
}

/// Some entry of `entries` has key `key`.
pub open spec fn has_key(entries: Seq<(Seq<char>, Seq<char>)>, key: Seq<char>) -> bool {
    key_pos(entries, key) >= 0
}

proof fn lemma_has_key_step(s: Seq<(Seq<char>, Seq<char>)>, i: int, key: Seq<char>)
    requires
        0 <= i < s.len(),
    ensures
        has_key(s.take(i + 1), key) <==> (has_key(s.take(i), key) || s[i].0 == key),
{
    assert(s.take(i + 1).drop_last() =~= s.take(i));
}

proof fn lemma_has_key_witness(s: Seq<(Seq<char>, Seq<char>)>, key: Seq<char>, i: int)
    requires
        has_key(s.take(i), key),
        0 <= i <= s.len(),
    ensures
        exists|j: int| 0 <= j < i && #[trigger] s[j].0 == key,
{
    let t = s.take(i);
    lemma_key_pos(t, key);
    let j = key_pos(t, key);
    assert(t[j] == s[j]);
}

/// The value text at position `i` is what `entries` holds for its key.
proof fn lemma_lookup_at(entries: Seq<(String, String)>, i: int)
    requires
        keys_distinct(entries),
        0 <= i < entries.len(),
    ensures
        lookup_entry(entry_views(entries), entries[i].0@) == Some(entries[i].1@),
{
    let v = entry_views(entries);
    let key = entries[i].0@;
    assert forall|k: int| i < k < v.len() implies (#[trigger] v[k]).0 != key by {
        assert(v[k].0 == entries[k].0@);
    }
    lemma_find_entry(v, key, i);
}

/// A key distinct from those before position `i` is not found among them.
proof fn lemma_fresh_key(entries: Seq<(String, String)>, i: int)
    requires
        keys_distinct(entries),
        0 <= i < entries.len(),
    ensures
        !has_key(entry_views(entries).take(i), entries[i].0@),
{
    let v = entry_views(entries);
    if has_key(v.take(i), entries[i].0@) {
        lemma_has_key_witness(v, entries[i].0@, i);
        let j = choose|j: int| 0 <= j < i && #[trigger] v[j].0 == entries[i].0@;
        assert(v[j].0 == entries[j].0@);
    }
}

proof fn lemma_push_contains(s: Seq<Seq<char>>, x: Seq<char>, k: Seq<char>)
    ensures
        s.push(x).contains(k) <==> (s.contains(k) || k == x),
{
    let t = s.push(x);
    if t.contains(k) {
        let w = choose|w: int| 0 <= w < t.len() && t[w] == k;
        if w < s.len() {
            assert(s[w] == k);
        }
    }
    if s.contains(k) {
        let w = choose|w: int| 0 <= w < s.len() && s[w] == k;
        assert(t[w] == k);
    }
    if k == x {
        assert(t[s.len() as int] == k);
    }
}

/// The keys whose value text differs between `old_state` and `new_state`
/// (including keys present in one of them only), each once.
pub fn changed_keys(old_state: &[(String, String)], new_state: &[(String, String)]) -> (keys: Vec<String>)
    requires
        keys_distinct(old_state@),
        keys_distinct(new_state@),
    ensures
        distinct(string_views(keys@)),
        forall|k: Seq<char>|
            string_views(keys@).contains(k) <==> changed_key(
                entry_views(old_state@),
                entry_views(new_state@),
                k,
            ),
{
    let ghost ov = entry_views(old_state@);
    let ghost nv = entry_views(new_state@);
    let mut keys: Vec<String> = Vec::new();
    proof { assert(string_views(keys@) =~= Seq::<Seq<char>>::empty()); }
    let mut i: usize = 0;
    while i < old_state.len()
        invariant
            i <= old_state@.len(),
            ov == entry_views(old_state@),
            nv == entry_views(new_state@),
            keys_distinct(old_state@),
            keys_distinct(new_state@),
            distinct(string_views(keys@)),
            forall|k: Seq<char>|
                #[trigger] string_views(keys@).contains(k) <==> (changed_key(ov, nv, k) && has_key(
                    ov.take(i as int),
                    k,
                )),
        decreases old_state@.len() - i,
    {
        let key = &old_state[i].0;
        proof {
            lemma_lookup_at(old_state@, i as int);
            lemma_key_pos(nv, key@);
            lemma_fresh_key(old_state@, i as int);
        }
        let differs = match find_key(new_state, key.as_str()) {
            Some(j) => {
                proof {
                    lemma_lookup_at(new_state@, j as int);
                    assert(nv[j as int].0 == key@);
                }
                !str_eq(new_state[j].1.as_str(), old_state[i].1.as_str())
            },
            None => true,
        };
        assert(differs == changed_key(ov, nv, key@));
        let ghost before = string_views(keys@);
        if differs {
            keys.push(key.clone());
        }
        proof {
            if differs {
                assert(string_views(keys@) =~= before.push(key@));
                assert(!before.contains(key@));
            } else {
                assert(string_views(keys@) =~= before);
            }
            assert forall|k: Seq<char>| #[trigger] string_views(keys@).contains(k) <==> (changed_key(
                ov,
                nv,
                k,
            ) && has_key(ov.take(i + 1), k)) by {
                lemma_has_key_step(ov, i as int, k);
                lemma_push_contains(before, key@, k);
                assert(before.contains(k) <==> (changed_key(ov, nv, k) && has_key(ov.take(i as int), k)));
            }
        }
        i = i + 1;
    }
    proof { assert(ov.take(ov.len() as int) =~= ov); }
    let mut i: usize = 0;
    while i < new_state.len()
        invariant
            i <= new_state@.len(),
            ov == entry_views(old_state@),
            nv == entry_views(new_state@),
            keys_distinct(new_state@),
            distinct(string_views(keys@)),
            forall|k: Seq<char>|
                #[trigger] string_views(keys@).contains(k) <==> (changed_key(ov, nv, k) && (has_key(
                    ov,
                    k,
                ) || has_key(nv.take(i as int), k))),
        decreases new_state@.len() - i,
    {
        let key = &new_state[i].0;
        proof {
            lemma_lookup_at(new_state@, i as int);
            lemma_fresh_key(new_state@, i as int);
        }
        let in_old = find_key(old_state, key.as_str());
        let ghost before = string_views(keys@);
        if in_old.is_none() {
            keys.push(key.clone());
        }
        proof {
            if in_old is None {
                assert(string_views(keys@) =~= before.push(key@));
                assert(!before.contains(key@));
            } else {
                assert(string_views(keys@) =~= before);
            }
            assert forall|k: Seq<char>| #[trigger] string_views(keys@).contains(k) <==> (changed_key(
                ov,
                nv,
                k,
            ) && (has_key(ov, k) || has_key(nv.take(i + 1), k))) by {
                lemma_has_key_step(nv, i as int, k);
                lemma_push_contains(before, key@, k);
                assert(before.contains(k) <==> (changed_key(ov, nv, k) && (has_key(ov, k) || has_key(
                    nv.take(i as int),
                    k,
                ))));
            }
        }
        i = i + 1;
    }
    proof { assert(nv.take(nv.len() as int) =~= nv); }
    keys
}


/// Law: a transfer or a burn that the payer's balance does not cover never
/// moves or destroys tokens: it ends short of balance (or out of gas before
/// it starts), and uses no more gas than the covered call would have used
/// up to its balance check.
pub proof fn lemma_short_balance_never_applies(p: GasSchedule, e: MockEntrypoint, limit: u64)
    requires
        e == MockEntrypoint::Transfer || e == MockEntrypoint::Burn,
    ensures
        mock_plan(p, e, limit, false).0 != MockOutcome::Applied,
        mock_plan(p, e, limit, false).0 != MockOutcome::OutOfGas,
        p.base_execution <= limit ==> mock_plan(p, e, limit, false).0 == MockOutcome::InsufficientBalance,
        p.base_execution <= limit ==> mock_plan(p, e, limit, false).1 == p.base_execution + p.storage_read
            + p.balance_check + p.emit,
{
}

/// Law: whatever the entrypoint, a call that moves or destroys tokens
/// (`Applied` for a transfer or a burn) had its amount covered.
pub proof fn lemma_applied_was_covered(p: GasSchedule, e: MockEntrypoint, limit: u64, covers: bool)
    requires
        e == MockEntrypoint::Transfer || e == MockEntrypoint::Burn,
        mock_plan(p, e, limit, covers).0 == MockOutcome::Applied,
    ensures
        covers,
{
}

} // verus!
