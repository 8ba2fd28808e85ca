//! The functions of the Soroban SDK that the contract calls, and what each of them does to the
//! ledger.
//!
//! Nothing in this module is proved: its contracts say of the SDK, and of the host behind it,
//! what their sources show. An `Env` is a handle on the host, and every copy of it is the same
//! host. The contracts here speak of one handle, which the caller lends for the length of the
//! call (`&mut` where the call changes the ledger); the library makes no copy of it, and the
//! addresses, values and lists that it is handed belong to the same host. Limits
//! on the resources of a transaction (its budget, its footprint, its memory) are not modelled:
//! where one of them is exceeded the host ends the invocation and undoes it.

use crate::ledger::{Call, Datum, Ledger, Lifetime, Mark};
use soroban_sdk::{Address, Env, Val};
use vstd::prelude::*;

verus! {

/// `soroban_sdk::Env`: the host, as the executing contract sees it.
#[verifier::external_type_specification]
#[verifier::external_body]
pub struct ExEnv(soroban_sdk::Env);

/// `soroban_sdk::Address`: the identity of an account or of a contract.
#[verifier::external_type_specification]
#[verifier::external_body]
pub struct ExAddress(soroban_sdk::Address);

/// `soroban_sdk::Val`: any value that the host can hold.
#[verifier::external_type_specification]
#[verifier::external_body]
pub struct ExVal(soroban_sdk::Val);

/// `soroban_sdk::Vec`: a list that the host holds.
#[verifier::external_type_specification]
#[verifier::external_body]
#[verifier::reject_recursive_types(T)]
pub struct ExVec<T>(soroban_sdk::Vec<T>);

/// The ledger as the contract that executes in `e` sees it.
pub uninterp spec fn ledger(e: Env) -> Ledger;

/// How long the contract that executes in `e` and its code still live, what was left of that when
/// the contract last came to execute, and how often it has asked for more.
pub uninterp spec fn lifetime(e: Env) -> Lifetime;

/// The addresses that have authorized the invocation that executes in `e`: those for which
/// `require_auth` returns.
pub uninterp spec fn authorized(e: Env) -> Set<Address>;

/// What a host value denotes.
pub uninterp spec fn datum(v: Val) -> Datum;

/// The addresses in a list, in order, where it holds nothing else.
pub uninterp spec fn listed(list: soroban_sdk::Vec<Address>) -> Seq<Address>;

/// Whether all that a list holds are addresses. The type does not see to that: the SDK takes any
/// list for a `Vec<Address>`, and looks at an item only when it is read.
pub uninterp spec fn of_addresses(list: soroban_sdk::Vec<Address>) -> bool;

/// The text form of an address, as ASCII: `G...` for an account, `C...` for a contract.
pub uninterp spec fn strkey(a: Address) -> Seq<u8>;

/// Whether an address can approve of the invocation that executes in `e`: it has authorized it,
/// and is not the executing contract itself.
pub open spec fn approves(e: Env, by: Address) -> bool {
    authorized(e).contains(by) && by != ledger(e).contract
}

/// Between the two, the contract did nothing to its own life: where no call left it, nothing
/// changed at all, and otherwise its life is as the last call left it.
pub open spec fn only_called(before: Env, after: Env) -> bool {
    &&& lifetime(after).follows(lifetime(before))
    &&& if ledger(after).calls.len() == ledger(before).calls.len() {
        after == before
    } else {
        lifetime(after).as_found()
    }
}

/// Whether an address is that of a contract, which its text form shows.
pub open spec fn is_contract(a: Address) -> bool {
    strkey(a).len() > 0 && strkey(a)[0] == 0x43u8
}

/// Whether a text can be a symbol of the host.
pub open spec fn is_symbol(s: Seq<char>) -> bool {
    &&& s.len() <= 32
    &&& forall|i: int| 0 <= i < s.len() ==> is_symbol_char(#[trigger] s[i])
}

pub open spec fn is_symbol_char(c: char) -> bool {
    'a' <= c <= 'z' || 'A' <= c <= 'Z' || '0' <= c <= '9' || c == '_'
}

/// `Clone` of `soroban_sdk::Address`: another handle on the same address.
pub assume_specification [<soroban_sdk::Address as Clone>::clone] (a: &Address) -> (r: Address)
    ensures
        r == *a,
;

// ---- Host values ----

/// `Symbol::new`, and `IntoVal` of a tuple: the list that holds a symbol alone, which is how the
/// host stores an enum's variant without fields. `Symbol::new` panics on any other text than a
/// symbol.
#[verifier::external_body]
pub(crate) fn tag(e: &Env, name: &str) -> (v: Val)
    requires
        is_symbol(name@),
    ensures
        datum(v) == Datum::Tag(name@, Mark::Alone),
{
    soroban_sdk::IntoVal::into_val(&(soroban_sdk::Symbol::new(e, name),), e)
}

/// `Symbol::new`, and `IntoVal` of a tuple: the list of a symbol and an address, which is how the
/// host stores an enum's variant with an address in it.
#[verifier::external_body]
pub(crate) fn tag_account(e: &Env, name: &str, a: &Address) -> (v: Val)
    requires
        is_symbol(name@),
    ensures
        datum(v) == Datum::Tag(name@, Mark::Account(*a)),
{
    soroban_sdk::IntoVal::into_val(&(soroban_sdk::Symbol::new(e, name), a), e)
}

/// `Symbol::new`, `BytesN::from_array`, and `IntoVal` of a tuple: the list of a symbol and 32
/// bytes, which is how the host stores an enum's variant with such bytes in it.
#[verifier::external_body]
pub(crate) fn tag_hash(e: &Env, name: &str, hash: &[u8; 32]) -> (v: Val)
    requires
        is_symbol(name@),
    ensures
        datum(v) == Datum::Tag(name@, Mark::Hash(*hash)),
{
    let bytes = soroban_sdk::BytesN::from_array(e, hash);
    soroban_sdk::IntoVal::into_val(&(soroban_sdk::Symbol::new(e, name), bytes), e)
}

/// `IntoVal` of an `Address`: the host's value for it.
#[verifier::external_body]
pub(crate) fn account_val(e: &Env, a: &Address) -> (v: Val)
    ensures
        datum(v) == Datum::Account(*a),
{
    soroban_sdk::IntoVal::into_val(a, e)
}

/// `IntoVal` of a `u32`: the host's value for it.
#[verifier::external_body]
pub(crate) fn count_val(e: &Env, n: u32) -> (v: Val)
    ensures
        datum(v) == Datum::Count(n),
{
    soroban_sdk::IntoVal::into_val(&n, e)
}

/// `IntoVal` of a `bool`: the host's value for it.
#[verifier::external_body]
pub(crate) fn flag_val(e: &Env, b: bool) -> (v: Val)
    ensures
        datum(v) == Datum::Flag(b),
{
    soroban_sdk::IntoVal::into_val(&b, e)
}

/// `IntoVal` of an `i128`: the host's value for it.
#[verifier::external_body]
pub(crate) fn amount_val(e: &Env, n: i128) -> (v: Val)
    ensures
        datum(v) == Datum::Amount(n),
{
    soroban_sdk::IntoVal::into_val(&n, e)
}

/// `IntoVal` of a `Vec<Address>` that holds addresses only: the host's value for it.
#[verifier::external_body]
pub(crate) fn accounts_val(e: &Env, list: &soroban_sdk::Vec<Address>) -> (v: Val)
    requires
        of_addresses(*list),
    ensures
        datum(v) == Datum::Accounts(listed(*list)),
{
    soroban_sdk::IntoVal::into_val(list, e)
}

/// `FromVal` for an `Address`: the address that the value denotes. It panics on a value of
/// another kind.
#[verifier::external_body]
pub(crate) fn to_account(e: &Env, v: &Val) -> (a: Address)
    requires
        datum(*v) is Account,
    ensures
        datum(*v) == Datum::Account(a),
{
    soroban_sdk::FromVal::from_val(e, v)
}

/// `FromVal` for a `u32`: the number that the value denotes. It panics on a value of another
/// kind.
#[verifier::external_body]
pub(crate) fn to_count(e: &Env, v: &Val) -> (n: u32)
    requires
        datum(*v) is Count,
    ensures
        datum(*v) == Datum::Count(n),
{
    soroban_sdk::FromVal::from_val(e, v)
}

/// `FromVal` for a `bool`: the truth value that the value denotes. It panics on a value of
/// another kind.
#[verifier::external_body]
pub(crate) fn to_flag(e: &Env, v: &Val) -> (b: bool)
    requires
        datum(*v) is Flag,
    ensures
        datum(*v) == Datum::Flag(b),
{
    soroban_sdk::FromVal::from_val(e, v)
}

/// `FromVal` for an `i128`: the number that the value denotes. It panics on a value of another
/// kind.
#[verifier::external_body]
pub(crate) fn to_amount(e: &Env, v: &Val) -> (n: i128)
    requires
        datum(*v) is Amount,
    ensures
        datum(*v) == Datum::Amount(n),
{
    soroban_sdk::FromVal::from_val(e, v)
}

/// `FromVal` for a `Vec<Address>`: the list that the value denotes. It panics on a value that is
/// no list.
#[verifier::external_body]
pub(crate) fn to_accounts(e: &Env, v: &Val) -> (list: soroban_sdk::Vec<Address>)
    requires
        datum(*v) is Accounts,
    ensures
        datum(*v) == Datum::Accounts(listed(list)),
        of_addresses(list),
{
    soroban_sdk::FromVal::from_val(e, v)
}

// ---- Lists of addresses ----

/// `Vec::new`: the empty list.
#[verifier::external_body]
pub(crate) fn list_new(e: &Env) -> (list: soroban_sdk::Vec<Address>)
    ensures
        listed(list) == Seq::<Address>::empty(),
        of_addresses(list),
{
    soroban_sdk::Vec::new(e)
}

/// `Vec::push_back`: the address comes last; what was there stays. The host counts what is in a
/// list with a `u32`, so a list that is full is left out.
#[verifier::external_body]
pub(crate) fn list_push_back(list: &mut soroban_sdk::Vec<Address>, a: Address)
    requires
        of_addresses(*old(list)),
        listed(*old(list)).len() < u32::MAX,
    ensures
        listed(*final(list)) == listed(*old(list)).push(a),
        of_addresses(*final(list)),
{
    list.push_back(a);
}

/// `Vec::len`: the number of addresses.
#[verifier::external_body]
pub(crate) fn list_len(list: &soroban_sdk::Vec<Address>) -> (n: u32)
    requires
        of_addresses(*list),
    ensures
        n == listed(*list).len(),
{
    list.len()
}

/// `Vec::get`: the address at a position, if there is one. It panics on an item that is no
/// address.
#[verifier::external_body]
pub(crate) fn list_get(list: &soroban_sdk::Vec<Address>, i: u32) -> (a: Option<Address>)
    requires
        of_addresses(*list),
    ensures
        a == (if i < listed(*list).len() {
            Some(listed(*list)[i as int])
        } else {
            None
        }),
{
    list.get(i)
}

// ---- Storage ----

/// `Instance::has`: whether the instance storage holds the key.
#[verifier::external_body]
pub(crate) fn instance_has(e: &Env, key: &Val) -> (r: bool)
    requires
        ledger(*e).ready(),
        datum(*key) is Tag,
    ensures
        r == ledger(*e).instance.contains_key(datum(*key)),
{
    e.storage().instance().has(key)
}

/// `Instance::get`: the value that the instance storage holds under the key, if it holds one.
#[verifier::external_body]
pub(crate) fn instance_get(e: &Env, key: &Val) -> (r: Option<Val>)
    requires
        ledger(*e).ready(),
        datum(*key) is Tag,
    ensures
        r is Some == ledger(*e).instance.contains_key(datum(*key)),
        r is Some ==> datum(r->0) == ledger(*e).instance[datum(*key)],
{
    e.storage().instance().get(key)
}

/// `Instance::set`: the instance storage holds the value under the key; nothing else changes.
#[verifier::external_body]
pub(crate) fn instance_set(e: &mut Env, key: &Val, value: &Val)
    requires
        ledger(*old(e)).ready(),
        datum(*key) is Tag,
    ensures
        ledger(*final(e)) == ledger(*old(e)).put_instance(datum(*key), datum(*value)),
        lifetime(*final(e)) == lifetime(*old(e)),
        authorized(*final(e)) == authorized(*old(e)),
{
    e.storage().instance().set(key, value);
}

/// `Instance::extend_ttl`: the contract's instance and its code are each extended where they have
/// `threshold` ledgers or less to live. The host refuses a threshold above the goal. Where an
/// entry of another contract names the code, the host extends that entry too.
#[verifier::external_body]
pub(crate) fn instance_extend_ttl(e: &mut Env, threshold: u32, extend_to: u32)
    requires
        ledger(*old(e)).ready(),
        threshold <= extend_to,
    ensures
        lifetime(*final(e)) == lifetime(*old(e)).extended(
            threshold,
            extend_to,
            ledger(*old(e)).max_ttl,
        ),
        ledger(*final(e)) == ledger(*old(e)),
        authorized(*final(e)) == authorized(*old(e)),
{
    e.storage().instance().extend_ttl(threshold, extend_to);
}

/// `Persistent::has`: whether the persistent storage holds the key.
#[verifier::external_body]
pub(crate) fn persistent_has(e: &Env, key: &Val) -> (r: bool)
    requires
        ledger(*e).ready(),
        datum(*key) is Tag,
    ensures
        r == ledger(*e).persistent.contains_key(datum(*key)),
{
    e.storage().persistent().has(key)
}

/// `Persistent::get`: the value that the persistent storage holds under the key, if it holds one.
#[verifier::external_body]
pub(crate) fn persistent_get(e: &Env, key: &Val) -> (r: Option<Val>)
    requires
        ledger(*e).ready(),
        datum(*key) is Tag,
    ensures
        r is Some == ledger(*e).persistent.contains_key(datum(*key)),
        r is Some ==> datum(r->0) == ledger(*e).persistent[datum(*key)],
{
    e.storage().persistent().get(key)
}

/// `Persistent::set`: the persistent storage holds the value under the key. A new entry gets the
/// network's initial TTL; an entry that was there keeps its own.
#[verifier::external_body]
pub(crate) fn persistent_set(e: &mut Env, key: &Val, value: &Val)
    requires
        ledger(*old(e)).ready(),
        datum(*key) is Tag,
    ensures
        ledger(*final(e)) == ledger(*old(e)).put_persistent(datum(*key), datum(*value)),
        lifetime(*final(e)) == lifetime(*old(e)),
        authorized(*final(e)) == authorized(*old(e)),
{
    e.storage().persistent().set(key, value);
}

/// `Persistent::extend_ttl`: the entry is extended where it has `threshold` ledgers or less to
/// live. The host refuses a missing entry, and a threshold above the goal.
#[verifier::external_body]
pub(crate) fn persistent_extend_ttl(e: &mut Env, key: &Val, threshold: u32, extend_to: u32)
    requires
        ledger(*old(e)).ready(),
        datum(*key) is Tag,
        ledger(*old(e)).persistent.contains_key(datum(*key)),
        threshold <= extend_to,
    ensures
        ledger(*final(e)) == ledger(*old(e)).extend(datum(*key), threshold, extend_to),
        lifetime(*final(e)) == lifetime(*old(e)),
        authorized(*final(e)) == authorized(*old(e)),
{
    e.storage().persistent().extend_ttl(key, threshold, extend_to);
}

// ---- The ledger and other contracts ----

/// `Ledger::sequence`: the number of the current ledger. It panics where the host knows of none.
#[verifier::external_body]
pub(crate) fn sequence(e: &Env) -> (n: u32)
    requires
        ledger(*e).ready(),
    ensures
        n == ledger(*e).sequence,
{
    e.ledger().sequence()
}

/// `Env::current_contract_address`: the contract that is executing.
#[verifier::external_body]
pub(crate) fn current_contract(e: &Env) -> (a: Address)
    requires
        ledger(*e).ready(),
    ensures
        a == ledger(*e).contract,
{
    e.current_contract_address()
}

/// `Address::to_string`, and `String::copy_into_slice`: the text form of the address.
#[verifier::external_body]
pub(crate) fn address_strkey(a: &Address) -> (s: Vec<u8>)
    ensures
        s@ == strkey(*a),
{
    let text = a.to_string();
    let mut bytes = vec![0u8; text.len() as usize];
    text.copy_into_slice(&mut bytes);
    bytes
}

/// `Address::require_auth`: the host makes sure that the address has authorized the invocation.
/// It ends the invocation where the address has not, which `requires` leaves out. To decide, the
/// host may run the check that an account contract exports. Were that contract the one that is
/// executing, the host would enter it once more, and its check could write to its storage:
/// `requires` leaves this out too. The check of any other contract can reach neither this
/// contract's storage nor the current ledger number, since the host then refuses to enter a
/// contract that is already executing; it can lengthen the life of this contract's instance and
/// change that of its code, and nothing is said of which addresses are still authorized after it.
#[verifier::external_body]
#[allow(unused_variables)]
pub(crate) fn require_auth(e: &mut Env, by: &Address)
    requires
        ledger(*old(e)).ready(),
        approves(*old(e), *by),
    ensures
        ledger(*final(e)) == ledger(*old(e)).call((Call::Approval { by: *by })),
        lifetime(*final(e)).follows(lifetime(*old(e))),
        lifetime(*final(e)).as_found(),
{
    by.require_auth();
}

/// `Env::try_invoke_contract`, for a function that returns an `i128`: the number that the other
/// contract returned, or `None` where its call failed or returned something else. What it returns
/// is up to that contract, and nothing is said of it. The other contract can reach neither this
/// contract's storage nor the current ledger number; it can lengthen the life of this contract's
/// instance and change that of its code. The host ends the invocation where the address is not
/// that of a contract, which `requires` leaves out.
#[verifier::external_body]
pub(crate) fn try_invoke(e: &mut Env, contract: &Address, function: &str, args: &Vec<Val>) -> (r:
    Option<i128>)
    requires
        ledger(*old(e)).ready(),
        is_contract(*contract),
        is_symbol(function@),
    ensures
        ledger(*final(e)) == ledger(*old(e)).call(
            (Call::Invocation {
                contract: *contract,
                function: function@,
                args: args@.map_values(|v: Val| datum(v)),
                reply: r,
            }),
        ),
        lifetime(*final(e)).follows(lifetime(*old(e))),
        lifetime(*final(e)).as_found(),
{
    let function = soroban_sdk::Symbol::new(e, function);
    let args = soroban_sdk::Vec::from_slice(e, args);
    match e.try_invoke_contract::<i128, soroban_sdk::Error>(contract, &function, args) {
        Ok(Ok(n)) => Some(n),
        _ => None,
    }
}

/// `token::Client::try_transfer`: whether the token moved the amount. What it answers is up to
/// the token contract, and nothing is said of it; as to its reach, and to addresses that are not
/// those of contracts, what is said of `try_invoke` holds here too.
#[verifier::external_body]
pub(crate) fn try_transfer(e: &mut Env, token: &Address, from: &Address, to: &Address, amount: i128)
    -> (done: bool)
    requires
        ledger(*old(e)).ready(),
        is_contract(*token),
    ensures
        ledger(*final(e)) == ledger(*old(e)).call(
            (Call::Transfer { token: *token, from: *from, to: *to, amount, done }),
        ),
        lifetime(*final(e)).follows(lifetime(*old(e))),
        lifetime(*final(e)).as_found(),
{
    let client = soroban_sdk::token::Client::new(e, token);
    matches!(client.try_transfer(from, to, &amount), Ok(Ok(())))
}

} // verus!
