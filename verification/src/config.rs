//! Node configuration: its values, and the reading of the texts that the
//! environment gives for them.

use vstd::prelude::*;
use vstd::string::{StrSliceExecFns, StringExecFns};
use crate::hashing::{
    base64_url_decode, base64_url_decoded, decimal, hex_decode, hex_value, str_eq, str_trim, trimmed,
};
use crate::consensus::string_views;

verus! {

/// A validator known at genesis, with its BLS public key.
#[derive(Clone, Debug)]
pub struct GenesisValidator {
    pub address: String,
    pub bls_public_key: Vec<u8>,
}

/// Peer-to-peer networking settings.
#[derive(Clone, Debug)]
pub struct P2pConfig {
    pub enabled: bool,
    pub listen_addr: String,
    pub bootstrap_peers: Vec<String>,
    pub enable_mdns: bool,
    pub max_peers: usize,
    pub connection_timeout_secs: u64,
}

impl Default for P2pConfig {
    fn default() -> (c: Self)
        ensures
            c.enabled,
            c.listen_addr@ == "/ip4/0.0.0.0/tcp/4001"@,
            c.bootstrap_peers@.len() == 0,
            c.enable_mdns,
            c.max_peers == 50,
            c.connection_timeout_secs == 60,
    {
        P2pConfig {
            enabled: true,
            listen_addr: "/ip4/0.0.0.0/tcp/4001".to_owned(),
            bootstrap_peers: Vec::new(),
            enable_mdns: true,
            max_peers: 50,
            connection_timeout_secs: 60,
        }
    }
}

/// A switch read from text is on when the text is `true` or `1`.
pub fn is_truthy_flag(value: &str) -> (on: bool)
    ensures
        on == (value@ == "true"@ || value@ == "1"@),
{
    str_eq(value, "true") || str_eq(value, "1")
}

/// The pieces of `s` between occurrences of `sep`, as `str::split` yields
/// them: one more piece than there are separators.
pub open spec fn split_chars(s: Seq<char>, sep: char) -> Seq<Seq<char>>
    decreases s.len(),
{
    if s.len() == 0 {
        seq![Seq::<char>::empty()]
    } else {
        let p = split_chars(s.drop_last(), sep);
        if s.last() == sep {
            p.push(Seq::<char>::empty())
        } else {
            p.update(p.len() - 1, p.last().push(s.last()))
        }
    }
}

proof fn lemma_split_len(s: Seq<char>, sep: char)
    ensures
        split_chars(s, sep).len() >= 1,
    decreases s.len(),
{
    if s.len() > 0 {
        lemma_split_len(s.drop_last(), sep);
    }
}

/// Character positions, start and end, of the pieces of `s` between
/// occurrences of `sep`.
fn piece_bounds(s: &str, sep: char) -> (r: Vec<(usize, usize)>)
    ensures
        r@.len() == split_chars(s@, sep).len(),
        forall|k: int|
            #![trigger r@[k]]
            0 <= k < r@.len() ==> r@[k].0 <= r@[k].1 <= s@.len() && s@.subrange(r@[k].0 as int, r@[k].1 as int)
                == split_chars(s@, sep)[k],
{
    let n = s.unicode_len();
    let mut r: Vec<(usize, usize)> = Vec::new();
    let mut start: usize = 0;
    let mut i: usize = 0;
    while i < n
        invariant
            n == s@.len(),
            start <= i <= n,
            split_chars(s@.take(i as int), sep).len() == r@.len() + 1,
            forall|k: int|
                #![trigger r@[k]]
                0 <= k < r@.len() ==> r@[k].0 <= r@[k].1 <= i && s@.subrange(r@[k].0 as int, r@[k].1 as int)
                    == split_chars(s@.take(i as int), sep)[k],
            split_chars(s@.take(i as int), sep)[r@.len() as int] == s@.subrange(start as int, i as int),
        decreases n - i,
    {
        let c = s.get_char(i);
        let ghost p = split_chars(s@.take(i as int), sep);
        let ghost before = r@;
        proof {
            let t = s@.take(i + 1);
            assert(t.drop_last() =~= s@.take(i as int));
            assert(t.last() == c);
            lemma_split_len(s@.take(i as int), sep);
        }
        if c == sep {
            r.push((start, i));
            start = i + 1;
            proof {
                let q = split_chars(s@.take(i + 1), sep);
                assert(q == p.push(Seq::<char>::empty()));
                assert(s@.subrange(start as int, i + 1) =~= Seq::<char>::empty());
                assert forall|k: int| #![trigger r@[k]] 0 <= k < r@.len() implies r@[k].0 <= r@[k].1 <= i + 1
                    && s@.subrange(r@[k].0 as int, r@[k].1 as int) == q[k] by {
                    if k < before.len() {
                        assert(r@[k] == before[k]);
                        assert(q[k] == p[k]);
                    }
                }
            }
        } else {
            proof {
                let q = split_chars(s@.take(i + 1), sep);
                assert(q == p.update(p.len() - 1, p.last().push(c)));
                assert(s@.subrange(start as int, i as int).push(c) =~= s@.subrange(start as int, i + 1));
                assert forall|k: int| #![trigger r@[k]] 0 <= k < r@.len() implies r@[k].0 <= r@[k].1 <= i + 1
                    && s@.subrange(r@[k].0 as int, r@[k].1 as int) == q[k] by {
                    assert(q[k] == p[k]);
                }
            }
        }
        i = i + 1;
    }
    let ghost before = r@;
    r.push((start, n));
    proof {
        assert(s@.take(n as int) =~= s@);
        assert forall|k: int| #![trigger r@[k]] 0 <= k < r@.len() implies r@[k].0 <= r@[k].1 <= s@.len()
            && s@.subrange(r@[k].0 as int, r@[k].1 as int) == split_chars(s@, sep)[k] by {
            if k < before.len() {
                assert(r@[k] == before[k]);
            }
        }
    }
    r
}

/// What one `GENESIS_VALIDATORS` entry gives: with exactly one `:`, the
/// address before it and the key after it, read as unpadded base64url or,
/// failing that, as hex; nothing otherwise.
pub open spec fn genesis_entry(entry: Seq<char>) -> Option<(Seq<char>, Seq<u8>)> {
    let parts = split_chars(entry, ':');
    if parts.len() != 2 {
        None
    } else {
        match base64_url_decoded(parts[1]) {
            Some(key) => Some((parts[0], key)),
            None => match hex_value(parts[1]) {
                Some(key) => Some((parts[0], key)),
                None => None,
            },
        }
    }
}

/// The validators that a list of entries gives, in order, skipping the
/// entries that give none.
pub open spec fn genesis_entries(entries: Seq<Seq<char>>) -> Seq<(Seq<char>, Seq<u8>)>
    decreases entries.len(),
{
    if entries.len() == 0 {
        seq![]
    } else {
        let rest = genesis_entries(entries.drop_last());
        match genesis_entry(entries.last()) {
            Some(v) => rest.push(v),
            None => rest,
        }
    }
}

/// Address and key of each validator.
pub open spec fn genesis_view(v: Seq<GenesisValidator>) -> Seq<(Seq<char>, Seq<u8>)> {
    v.map_values(|g: GenesisValidator| (g.address@, g.bls_public_key@))
}

/// The genesis validators listed in `text`: `address:key` entries
/// separated by `;`.
pub fn parse_genesis_validators(text: &str) -> (r: Vec<GenesisValidator>)
    ensures
        genesis_view(r@) == genesis_entries(split_chars(text@, ';')),
{
    let bounds = piece_bounds(text, ';');
    let ghost pieces = split_chars(text@, ';');
    let mut out: Vec<GenesisValidator> = Vec::new();
    let mut k: usize = 0;
    while k < bounds.len()
        invariant
            k <= bounds@.len(),
            pieces == split_chars(text@, ';'),
            bounds@.len() == pieces.len(),
            forall|j: int|
                #![trigger bounds@[j]]
                0 <= j < bounds@.len() ==> bounds@[j].0 <= bounds@[j].1 <= text@.len() && text@.subrange(
                    bounds@[j].0 as int,
                    bounds@[j].1 as int,
                ) == pieces[j],
            genesis_view(out@) == genesis_entries(pieces.take(k as int)),
        decreases bounds@.len() - k,
    {
        let (a, b) = bounds[k];
        let entry = text.substring_char(a, b);
        assert(entry@ == pieces[k as int]);
        let ghost before = out@;
        let parts = piece_bounds(entry, ':');
        if parts.len() == 2 {
            let (a0, b0) = parts[0];
            let (a1, b1) = parts[1];
            let address = entry.substring_char(a0, b0);
            let key_text = entry.substring_char(a1, b1);
            assert(address@ == split_chars(entry@, ':')[0]);
            assert(key_text@ == split_chars(entry@, ':')[1]);
            let key = match base64_url_decode(key_text) {
                Ok(v) => Some(v),
                Err(_) => match hex_decode(key_text) {
                    Ok(v) => Some(v),
                    Err(_) => None,
                },
            };
            if let Some(key) = key {
                out.push(GenesisValidator { address: address.to_owned(), bls_public_key: key });
                proof {
                    assert(genesis_view(out@) =~= genesis_view(before).push(genesis_entry(entry@)->0));
                }
            }
        }
        proof {
            let t = pieces.take(k + 1);
            assert(t.drop_last() =~= pieces.take(k as int));
            assert(t.last() == entry@);
        }
        k = k + 1;
    }
    proof {
        assert(pieces.take(bounds@.len() as int) =~= pieces);
    }
    out
}

/// The items of a comma-separated list: each piece trimmed, the empty ones
/// dropped.
pub open spec fn list_items(pieces: Seq<Seq<char>>) -> Seq<Seq<char>>
    decreases pieces.len(),
{
    if pieces.len() == 0 {
        seq![]
    } else {
        let rest = list_items(pieces.drop_last());
        let item = trimmed(pieces.last());
        if item.len() > 0 {
            rest.push(item)
        } else {
            rest
        }
    }
}

/// The items of the comma-separated list `text`.
pub fn parse_list(text: &str) -> (r: Vec<String>)
    ensures
        string_views(r@) == list_items(split_chars(text@, ',')),
{
    let bounds = piece_bounds(text, ',');
    let ghost pieces = split_chars(text@, ',');
    let mut out: Vec<String> = Vec::new();
    let mut k: usize = 0;
    while k < bounds.len()
        invariant
            k <= bounds@.len(),
            pieces == split_chars(text@, ','),
            bounds@.len() == pieces.len(),
            forall|j: int|
                #![trigger bounds@[j]]
                0 <= j < bounds@.len() ==> bounds@[j].0 <= bounds@[j].1 <= text@.len() && text@.subrange(
                    bounds@[j].0 as int,
                    bounds@[j].1 as int,
                ) == pieces[j],
            string_views(out@) == list_items(pieces.take(k as int)),
        decreases bounds@.len() - k,
    {
        let (a, b) = bounds[k];
        let piece = text.substring_char(a, b);
        let item = str_trim(piece);
        let ghost before = out@;
        if !item.is_empty() {
            out.push(item.to_owned());
            proof {
                assert(string_views(out@) =~= string_views(before).push(item@));
            }
        }
        proof {
            let t = pieces.take(k + 1);
            assert(t.drop_last() =~= pieces.take(k as int));
            assert(t.last() == piece@);
        }
        k = k + 1;
    }
    proof {
        assert(pieces.take(bounds@.len() as int) =~= pieces);
    }
    out
}

/// The value of `digits`, all ASCII decimal digits, most significant first.
pub open spec fn digits_value(digits: Seq<char>) -> nat
    decreases digits.len(),
{
    if digits.len() == 0 {
        0
    } else {
        digits_value(digits.drop_last()) * 10 + (digits.last() as nat - 48) as nat
    }
}

/// The number that `str::parse` reads from `text` as an unsigned integer,
/// before any bound: an optional `+`, then one or more ASCII digits.
pub open spec fn decimal_text_value(text: Seq<char>) -> Option<nat> {
    let digits = unsigned_digits(text);
    if digits.len() > 0 && forall|i: int| 0 <= i < digits.len() ==> is_ascii_digit(#[trigger] digits[i]) {
        Some(digits_value(digits))
    } else {
        None
    }
}

/// An ASCII decimal digit.
pub open spec fn is_ascii_digit(c: char) -> bool {
    '0' <= c <= '9'
}

/// The characters after an optional leading `+`.
pub open spec fn unsigned_digits(text: Seq<char>) -> Seq<char> {
    if text.len() > 0 && text[0] == '+' {
        text.drop_first()
    } else {
        text
    }
}

/// A longer run of digits is worth at least its prefix.
proof fn lemma_digits_value_prefix(digits: Seq<char>, k: int)
    requires
        0 <= k <= digits.len(),
        forall|i: int| 0 <= i < digits.len() ==> is_ascii_digit(#[trigger] digits[i]),
    ensures
        digits_value(digits.subrange(0, k)) <= digits_value(digits),
    decreases digits.len() - k,
{
    if k < digits.len() {
        let longer = digits.subrange(0, k + 1);
        assert(longer.drop_last() =~= digits.subrange(0, k));
        assert(digits_value(longer) >= digits_value(digits.subrange(0, k)));
        lemma_digits_value_prefix(digits, k + 1);
    } else {
        assert(digits.subrange(0, k) =~= digits);
    }
}

/// An unsigned integer read from text the way `str::parse::<u64>` reads it:
/// an optional `+`, then one or more ASCII digits, with a value that fits.
pub fn parse_u64(text: &str) -> (r: Option<u64>)
    ensures
        r == (match decimal_text_value(text@) {
            Some(n) => if n <= u64::MAX { Some(n as u64) } else { None },
            None => None,
        }),
{
    let n = text.unicode_len();
    let ghost t = text@;
    let mut start: usize = 0;
    if n > 0 && text.get_char(0) == '+' {
        start = 1;
    }
    let ghost digits = unsigned_digits(t);
    proof {
        assert(digits =~= t.subrange(start as int, t.len() as int));
    }
    if start >= n {
        return None;
    }
    let mut value: u64 = 0;
    let mut i: usize = start;
    while i < n
        invariant
            n == t.len(),
            t == text@,
            start <= i <= n,
            digits == t.subrange(start as int, n as int),
            digits == unsigned_digits(t),
            forall|j: int| 0 <= j < i - start ==> is_ascii_digit(#[trigger] digits[j]),
            value == digits_value(digits.subrange(0, i - start)),
        decreases n - i,
    {
        let c = text.get_char(i);
        assert(c == digits[i - start]);
        if c < '0' || c > '9' {
            proof {
                assert(!is_ascii_digit(digits[i - start]));
                assert(decimal_text_value(t) is None);
            }
            return None;
        }
        let d = (c as u32 - 48) as u64;
        let ghost prefix = digits.subrange(0, i - start + 1);
        proof {
            assert(prefix.drop_last() =~= digits.subrange(0, i - start));
            assert(prefix.last() == c);
        }
        if value > (u64::MAX - d) / 10 {
            proof {
                assert(value * 10 + d > u64::MAX) by (nonlinear_arith)
                    requires
                        value > (u64::MAX - d) / 10,
                        d <= 9,
                ;
                assert(digits_value(prefix) == digits_value(prefix.drop_last()) * 10 + (prefix.last() as nat - 48));
                assert(digits_value(prefix) == value * 10 + d);
                if forall|j: int| 0 <= j < digits.len() ==> is_ascii_digit(#[trigger] digits[j]) {
                    assert(prefix =~= digits.subrange(0, i - start + 1));
                    lemma_digits_value_prefix(digits, i - start + 1);
                    assert(digits_value(digits) > u64::MAX);
                }
                assert(match decimal_text_value(t) {
                    Some(v) => v > u64::MAX,
                    None => true,
                });
            }
            return None;
        }
        value = value * 10 + d;
        i = i + 1;
    }
    proof {
        assert(digits.subrange(0, n - start) =~= digits);
    }
    Some(value)
}

/// The decimal digits of `n` as characters.
pub open spec fn decimal_chars(n: nat) -> Seq<char> {
    decimal(n).map_values(|b: u8| b as char)
}

/// Decimal text of `n`, through `u64::to_string`. Trusted: the digits
/// without leading zeros.
#[verifier::external_body]
fn decimal_string(n: u64) -> (r: String)
    ensures
        r@ == decimal_chars(n as nat),
{
    n.to_string()
}

/// The characters of an optional text.
pub open spec fn text_of(t: Option<&str>) -> Option<Seq<char>> {
    match t {
        Some(s) => Some(s@),
        None => None,
    }
}

/// A switch: on when the text is `true` or `1`, `default` when there is no text.
pub open spec fn flag_or(t: Option<Seq<char>>, default: bool) -> bool {
    match t {
        Some(s) => s == "true"@ || s == "1"@,
        None => default,
    }
}

/// A number no larger than `max`: read from the text, or `default` when
/// there is no text or it does not read as such a number.
pub open spec fn number_or(t: Option<Seq<char>>, max: nat, default: nat) -> nat {
    match t {
        Some(s) => match decimal_text_value(s) {
            Some(n) => if n <= max { n } else { default },
            None => default,
        },
        None => default,
    }
}

fn read_flag(t: Option<&str>, default: bool) -> (b: bool)
    ensures
        b == flag_or(text_of(t), default),
{
    match t {
        Some(s) => is_truthy_flag(s),
        None => default,
    }
}

fn read_number(t: Option<&str>, max: u64, default: u64) -> (n: u64)
    requires
        default <= max,
    ensures
        n == number_or(text_of(t), max as nat, default as nat),
{
    match t {
        Some(s) => match parse_u64(s) {
            Some(v) => if v <= max { v } else { default },
            None => default,
        },
        None => default,
    }
}

impl P2pConfig {
    /// The settings read from the texts of `P2P_ENABLED`, `P2P_PORT`,
    /// `P2P_BOOTSTRAP_PEERS`, `P2P_MDNS`, `P2P_MAX_PEERS` and
    /// `P2P_CONNECTION_TIMEOUT` (`None` for a variable that is not set).
    pub fn from_settings(
        enabled: Option<&str>,
        port: Option<&str>,
        bootstrap_peers: Option<&str>,
        mdns: Option<&str>,
        max_peers: Option<&str>,
        connection_timeout: Option<&str>,
    ) -> (c: Self)
        ensures
            c.enabled == flag_or(text_of(enabled), true),
            c.listen_addr@ == "/ip4/0.0.0.0/tcp/"@ + decimal_chars(number_or(text_of(port), 65535, 4001)),
            string_views(c.bootstrap_peers@) == (match bootstrap_peers {
                Some(t) => list_items(split_chars(t@, ',')),
                None => Seq::<Seq<char>>::empty(),
            }),
            c.enable_mdns == flag_or(text_of(mdns), true),
            c.max_peers == number_or(text_of(max_peers), usize::MAX as nat, 50),
            c.connection_timeout_secs == number_or(text_of(connection_timeout), u64::MAX as nat, 60),
    {
        let port_number = read_number(port, 65535, 4001);
        let mut listen_addr = "/ip4/0.0.0.0/tcp/".to_owned();
        let digits = decimal_string(port_number);
        listen_addr.append(digits.as_str());
        let peers = match bootstrap_peers {
            Some(t) => parse_list(t),
            None => Vec::new(),
        };
        proof {
            if bootstrap_peers is None {
                assert(string_views(peers@) =~= Seq::<Seq<char>>::empty());
            }
        }
        P2pConfig {
            enabled: read_flag(enabled, true),
            listen_addr,
            bootstrap_peers: peers,
            enable_mdns: read_flag(mdns, true),
            max_peers: read_number(max_peers, usize::MAX as u64, 50) as usize,
            connection_timeout_secs: read_number(connection_timeout, u64::MAX, 60),
        }
    }
}


/// The texts of the node's environment variables (`None` for one that is not
/// set), as the environment gives them.
#[derive(Clone, Debug)]
pub struct NodeEnv {
    pub data_dir: Option<String>,
    pub api_port: Option<String>,
    pub gossip_port: Option<String>,
    pub node_peers: Option<String>,
    pub chain_id: Option<String>,
    pub network_id: Option<String>,
    pub mainnet_mode: Option<String>,
    pub allow_unverified_sync: Option<String>,
    pub strict_sync_verify: Option<String>,
    pub max_dag_nodes: Option<String>,
    pub max_tips: Option<String>,
    pub checkpoint_interval_ms: Option<String>,
    pub gossip_interval_ms: Option<String>,
    pub gossip_enabled: Option<String>,
    pub rate_limit_tx_max: Option<String>,
    pub rate_limit_contract_max: Option<String>,
    pub rate_limit_general_max: Option<String>,
    pub static_dir: Option<String>,
    pub public_url: Option<String>,
    pub is_genesis_node: Option<String>,
    pub p2p_bootstrap_peers: Option<String>,
}

/// The node's settings that its environment decides, with their defaults.
#[derive(Clone, Debug)]
pub struct NodeSettings {
    pub data_dir: String,
    pub api_port: u16,
    pub gossip_port: u16,
    pub peers: Vec<String>,
    pub chain_id: String,
    pub network_id: String,
    pub mainnet_mode: bool,
    pub sync_verify_strict: bool,
    pub max_dag_nodes: usize,
    pub max_tips: usize,
    pub checkpoint_interval_ms: u64,
    pub gossip_interval_ms: u64,
    pub gossip_enabled: bool,
    pub rate_limit_tx_max: u32,
    pub rate_limit_contract_max: u32,
    pub rate_limit_general_max: u32,
    pub static_dir: Option<String>,
    pub public_url: Option<String>,
    pub is_genesis_node: bool,
}

/// The characters of an optional string.
pub open spec fn string_text(t: Option<String>) -> Option<Seq<char>> {
    match t {
        Some(s) => Some(s@),
        None => None,
    }
}

/// The text, or `default` when there is none.
pub open spec fn text_or(t: Option<Seq<char>>, default: Seq<char>) -> Seq<char> {
    match t {
        Some(s) => s,
        None => default,
    }
}

/// Whether the node may start a new chain: as `IS_GENESIS_NODE` says where
/// it is set; otherwise when no bootstrap peers are configured (the
/// variable is unset or only white space).
pub open spec fn genesis_rule(is_genesis: Option<Seq<char>>, bootstrap_peers: Option<Seq<char>>) -> bool {
    match is_genesis {
        Some(_) => flag_or(is_genesis, false),
        None => match bootstrap_peers {
            Some(p) => trimmed(p).len() == 0,
            None => true,
        },
    }
}

/// Whether a node verifies synced checkpoints strictly: as
/// `STRICT_SYNC_VERIFY` says where it is set, otherwise unless
/// `ALLOW_UNVERIFIED_SYNC` is on.
pub open spec fn strict_sync_rule(strict: Option<Seq<char>>, allow_unverified: Option<Seq<char>>) -> bool {
    flag_or(strict, !flag_or(allow_unverified, false))
}

fn opt_str(t: &Option<String>) -> (r: Option<&str>)
    ensures
        text_of(r) == string_text(*t),
{
    match t {
        Some(s) => Some(s.as_str()),
        None => None,
    }
}

fn text_or_default(t: &Option<String>, default: &str) -> (r: String)
    ensures
        r@ == text_or(string_text(*t), default@),
{
    match t {
        Some(s) => s.as_str().to_owned(),
        None => default.to_owned(),
    }
}

/// Whether the node may start a new chain (see `genesis_rule`).
pub fn is_genesis_node(is_genesis: Option<&str>, bootstrap_peers: Option<&str>) -> (b: bool)
    ensures
        b == genesis_rule(text_of(is_genesis), text_of(bootstrap_peers)),
{
    match is_genesis {
        Some(v) => is_truthy_flag(v),
        None => match bootstrap_peers {
            Some(p) => str_trim(p).unicode_len() == 0,
            None => true,
        },
    }
}

impl NodeSettings {
    /// The settings that the environment texts give: each number read as
    /// decimal text that fits its type, each switch on for `true` or `1`,
    /// and the documented default where a variable is unset or unreadable.
    pub fn from_env_texts(env: &NodeEnv) -> (c: Self)
        ensures
            c.data_dir@ == text_or(string_text(env.data_dir), ".rinku-data"@),
            c.api_port == number_or(string_text(env.api_port), 65535, 3001),
            c.gossip_port == number_or(string_text(env.gossip_port), 65535, 4001),
            string_views(c.peers@) == (match env.node_peers {
                Some(t) => list_items(split_chars(t@, ',')),
                None => Seq::<Seq<char>>::empty(),
            }),
            c.chain_id@ == text_or(string_text(env.chain_id), "rinku-mainnet"@),
            c.network_id@ == text_or(string_text(env.network_id), "mainnet"@),
            c.mainnet_mode == flag_or(string_text(env.mainnet_mode), false),
            c.sync_verify_strict == strict_sync_rule(
                string_text(env.strict_sync_verify),
                string_text(env.allow_unverified_sync),
            ),
            c.max_dag_nodes == number_or(string_text(env.max_dag_nodes), usize::MAX as nat, 300),
            c.max_tips == number_or(string_text(env.max_tips), usize::MAX as nat, 15),
            c.checkpoint_interval_ms == number_or(
                string_text(env.checkpoint_interval_ms),
                u64::MAX as nat,
                15000,
            ),
            c.gossip_interval_ms == number_or(string_text(env.gossip_interval_ms), u64::MAX as nat, 200),
            c.gossip_enabled == flag_or(string_text(env.gossip_enabled), true),
            c.rate_limit_tx_max == number_or(string_text(env.rate_limit_tx_max), u32::MAX as nat, 30),
            c.rate_limit_contract_max == number_or(
                string_text(env.rate_limit_contract_max),
                u32::MAX as nat,
                20,
            ),
            c.rate_limit_general_max == number_or(
                string_text(env.rate_limit_general_max),
                u32::MAX as nat,
                100,
            ),
            string_text(c.static_dir) == string_text(env.static_dir),
            string_text(c.public_url) == string_text(env.public_url),
            c.is_genesis_node == genesis_rule(
                string_text(env.is_genesis_node),
                string_text(env.p2p_bootstrap_peers),
            ),
    {
        let peers = match &env.node_peers {
            Some(t) => parse_list(t.as_str()),
            None => Vec::new(),
        };
        proof {
            if env.node_peers is None {
                assert(string_views(peers@) =~= Seq::<Seq<char>>::empty());
            }
        }
        let strict = match opt_str(&env.strict_sync_verify) {
            Some(v) => is_truthy_flag(v),
            None => !read_flag(opt_str(&env.allow_unverified_sync), false),
        };
        let static_dir = match &env.static_dir {
            Some(s) => Some(s.as_str().to_owned()),
            None => None,
        };
        let public_url = match &env.public_url {
            Some(s) => Some(s.as_str().to_owned()),
            None => None,
        };
        NodeSettings {
            data_dir: text_or_default(&env.data_dir, ".rinku-data"),
            api_port: read_number(opt_str(&env.api_port), 65535, 3001) as u16,
            gossip_port: read_number(opt_str(&env.gossip_port), 65535, 4001) as u16,
            peers,
            chain_id: text_or_default(&env.chain_id, "rinku-mainnet"),
            network_id: text_or_default(&env.network_id, "mainnet"),
            mainnet_mode: read_flag(opt_str(&env.mainnet_mode), false),
            sync_verify_strict: strict,
            max_dag_nodes: read_number(opt_str(&env.max_dag_nodes), usize::MAX as u64, 300) as usize,
            max_tips: read_number(opt_str(&env.max_tips), usize::MAX as u64, 15) as usize,
            checkpoint_interval_ms: read_number(opt_str(&env.checkpoint_interval_ms), u64::MAX, 15000),
            gossip_interval_ms: read_number(opt_str(&env.gossip_interval_ms), u64::MAX, 200),
            gossip_enabled: read_flag(opt_str(&env.gossip_enabled), true),
            rate_limit_tx_max: read_number(opt_str(&env.rate_limit_tx_max), u32::MAX as u64, 30) as u32,
            rate_limit_contract_max: read_number(opt_str(&env.rate_limit_contract_max), u32::MAX as u64, 20) as u32,
            rate_limit_general_max: read_number(opt_str(&env.rate_limit_general_max), u32::MAX as u64, 100) as u32,
            static_dir,
            public_url,
            is_genesis_node: is_genesis_node(opt_str(&env.is_genesis_node), opt_str(&env.p2p_bootstrap_peers)),
        }
    }
}

} // verus!
