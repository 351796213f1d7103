use crate::addr::{AddressKey, SocketAddr};
use crate::msg::Username;
use bidir_map::BidirMap;
use vstd::prelude::*;

verus! {

/// The bidirectional map of `bidir_map`. Its value is opaque here.
#[verifier::external_type_specification]
#[verifier::external_body]
#[verifier::reject_recursive_types(Kv1)]
#[verifier::reject_recursive_types(Kv2)]
pub struct ExBidirMap<Kv1: PartialEq, Kv2: PartialEq>(BidirMap<Kv1, Kv2>);

/// The pairs that `map` holds, in the order in which it looks through them.
pub uninterp spec fn map_entries(map: BidirMap<AddressKey, String>) -> Seq<
    (AddressKey, Seq<char>),
>;

/// The index of the first entry with this address.
pub open spec fn find_address(entries: Seq<(AddressKey, Seq<char>)>, address: AddressKey) -> Option<
    int,
>
    decreases entries.len(),
{
    if entries.len() == 0 {
        None
    } else {
        match find_address(entries.drop_last(), address) {
            Some(i) => Some(i),
            None => if entries.last().0 == address {
                Some(entries.len() - 1)
            } else {
                None
            },
        }
    }
}

/// The index of the first entry with this user.
pub open spec fn find_user(entries: Seq<(AddressKey, Seq<char>)>, user: Seq<char>) -> Option<int>
    decreases entries.len(),
{
    if entries.len() == 0 {
        None
    } else {
        match find_user(entries.drop_last(), user) {
            Some(i) => Some(i),
            None => if entries.last().1 == user {
                Some(entries.len() - 1)
            } else {
                None
            },
        }
    }
}

/// The entries without that at `i`, whose place the last one takes.
pub open spec fn without(entries: Seq<(AddressKey, Seq<char>)>, i: int) -> Seq<
    (AddressKey, Seq<char>),
> {
    entries.update(i, entries.last()).drop_last()
}

/// The index of the entry that makes way for a new one: that with the same address, or where
/// there is none, that with the same user.
pub open spec fn displaced(
    entries: Seq<(AddressKey, Seq<char>)>,
    address: AddressKey,
    user: Seq<char>,
) -> Option<int> {
    match find_address(entries, address) {
        Some(i) => Some(i),
        None => find_user(entries, user),
    }
}

/// The entries after `address` and `user` have been entered.
pub open spec fn inserted(
    entries: Seq<(AddressKey, Seq<char>)>,
    address: AddressKey,
    user: Seq<char>,
) -> Seq<(AddressKey, Seq<char>)> {
    match displaced(entries, address, user) {
        Some(i) => without(entries, i).push((address, user)),
        None => entries.push((address, user)),
    }
}

/// The entries after the first one with this user has been struck out.
pub open spec fn removed(entries: Seq<(AddressKey, Seq<char>)>, user: Seq<char>) -> Seq<
    (AddressKey, Seq<char>),
> {
    match find_user(entries, user) {
        Some(i) => without(entries, i),
        None => entries,
    }
}

/// The user at this address.
pub open spec fn user_at(entries: Seq<(AddressKey, Seq<char>)>, address: AddressKey) -> Option<
    Seq<char>,
> {
    match find_address(entries, address) {
        Some(i) => Some(entries[i].1),
        None => None,
    }
}

/// The address of this user.
pub open spec fn address_for(entries: Seq<(AddressKey, Seq<char>)>, user: Seq<char>) -> Option<
    AddressKey,
> {
    match find_user(entries, user) {
        Some(i) => Some(entries[i].0),
        None => None,
    }
}

/// A pair as the map hands it out, by its views.
pub open spec fn pair_view(pair: Option<(AddressKey, String)>) -> Option<(AddressKey, Seq<char>)> {
    match pair {
        Some((address, user)) => Some((address, user@)),
        None => None,
    }
}

/// The entry at an index that was found.
pub open spec fn entry_at(entries: Seq<(AddressKey, Seq<char>)>, i: Option<int>) -> Option<
    (AddressKey, Seq<char>),
> {
    match i {
        Some(i) => Some(entries[i]),
        None => None,
    }
}

/// Calls `BidirMap::new`: a new map holds nothing.
#[verifier::external_body]
fn map_new() -> (r: BidirMap<AddressKey, String>)
    ensures
        map_entries(r) == Seq::<(AddressKey, Seq<char>)>::empty(),
{
    BidirMap::new()
}

/// Calls `BidirMap::insert`. It takes out the first pair with the same address, or where there is
/// none the first with the same user, by swapping the last pair into its place, then adds the new
/// pair at the end. It returns the pair taken out.
#[verifier::external_body]
fn map_insert(map: &mut BidirMap<AddressKey, String>, address: AddressKey, user: String) -> (r:
    Option<(AddressKey, String)>)
    ensures
        map_entries(*final(map)) == inserted(map_entries(*old(map)), address, user@),
        pair_view(r) == entry_at(
            map_entries(*old(map)),
            displaced(map_entries(*old(map)), address, user@),
        ),
{
    map.insert(address, user)
}

/// Calls `BidirMap::remove_by_second`. It takes out the first pair with this user, by swapping
/// the last pair into its place, and returns it.
#[verifier::external_body]
fn map_remove_by_second(map: &mut BidirMap<AddressKey, String>, user: &String) -> (r: Option<
    (AddressKey, String),
>)
    ensures
        map_entries(*final(map)) == removed(map_entries(*old(map)), user@),
        pair_view(r) == entry_at(
            map_entries(*old(map)),
            find_user(map_entries(*old(map)), user@),
        ),
{
    map.remove_by_second(user)
}

/// Calls `BidirMap::get_by_first`: the user of the first pair with this address.
#[verifier::external_body]
fn map_get_by_first<'a>(map: &'a BidirMap<AddressKey, String>, address: &AddressKey) -> (r: Option<
    &'a String,
>)
    ensures
        user_at(map_entries(*map), *address) == (match r {
            Some(user) => Some(user@),
            None => None,
        }),
{
    map.get_by_first(address)
}

/// Calls `BidirMap::get_by_second`: the address of the first pair with this user.
#[verifier::external_body]
fn map_get_by_second<'a>(map: &'a BidirMap<AddressKey, String>, user: &String) -> (r: Option<
    &'a AddressKey,
>)
    ensures
        address_for(map_entries(*map), user@) == (match r {
            Some(address) => Some(*address),
            None => None,
        }),
{
    map.get_by_second(user)
}

/// Calls `BidirMap::is_empty`: whether the map holds no pair.
#[verifier::external_body]
fn map_is_empty(map: &BidirMap<AddressKey, String>) -> (r: bool)
    ensures
        r == (map_entries(*map).len() == 0),
{
    map.is_empty()
}

/// No two entries have the same address.
pub open spec fn distinct_addresses(entries: Seq<(AddressKey, Seq<char>)>) -> bool {
    forall|i: int, j: int|
        0 <= i < entries.len() && 0 <= j < entries.len() && i != j
            ==> (#[trigger] entries[i]).0 != (#[trigger] entries[j]).0
}

/// No two entries have the same user.
pub open spec fn distinct_users(entries: Seq<(AddressKey, Seq<char>)>) -> bool {
    forall|i: int, j: int|
        0 <= i < entries.len() && 0 <= j < entries.len() && i != j
            ==> (#[trigger] entries[i]).1 != (#[trigger] entries[j]).1
}

/// Every entry's address is that of a socket.
pub open spec fn socket_addresses(entries: Seq<(AddressKey, Seq<char>)>) -> bool {
    forall|i: int|
        0 <= i < entries.len() ==> exists|addr: SocketAddr|
            addr.as_key() == (#[trigger] entries[i]).0
}

proof fn lemma_find_address(entries: Seq<(AddressKey, Seq<char>)>, address: AddressKey)
    ensures
        match find_address(entries, address) {
            Some(i) => {
                &&& 0 <= i < entries.len()
                &&& entries[i].0 == address
                &&& forall|j: int| 0 <= j < i ==> (#[trigger] entries[j]).0 != address
            },
            None => forall|j: int|
                0 <= j < entries.len() ==> (#[trigger] entries[j]).0 != address,
        },
    decreases entries.len(),
{
    if entries.len() > 0 {
        let front = entries.drop_last();
        lemma_find_address(front, address);
        assert forall|j: int| 0 <= j < front.len() implies front[j] == entries[j] by {}
        if find_address(entries, address) is None {
            assert forall|j: int| 0 <= j < entries.len() implies (#[trigger] entries[j]).0
                != address by {
                if j < front.len() {
                    assert(front[j].0 != address);
                }
            }
        } else {
            let i = find_address(entries, address)->0;
            assert forall|j: int| 0 <= j < i implies (#[trigger] entries[j]).0 != address by {
                assert(front[j].0 != address);
            }
        }
    }
}

proof fn lemma_find_user(entries: Seq<(AddressKey, Seq<char>)>, user: Seq<char>)
    ensures
        match find_user(entries, user) {
            Some(i) => {
                &&& 0 <= i < entries.len()
                &&& entries[i].1 == user
                &&& forall|j: int| 0 <= j < i ==> (#[trigger] entries[j]).1 != user
            },
            None => forall|j: int| 0 <= j < entries.len() ==> (#[trigger] entries[j]).1 != user,
        },
    decreases entries.len(),
{
    if entries.len() > 0 {
        let front = entries.drop_last();
        lemma_find_user(front, user);
        assert forall|j: int| 0 <= j < front.len() implies front[j] == entries[j] by {}
        if find_user(entries, user) is None {
            assert forall|j: int| 0 <= j < entries.len() implies (#[trigger] entries[j]).1
                != user by {
                if j < front.len() {
                    assert(front[j].1 != user);
                }
            }
        } else {
            let i = find_user(entries, user)->0;
            assert forall|j: int| 0 <= j < i implies (#[trigger] entries[j]).1 != user by {
                assert(front[j].1 != user);
            }
        }
    }
}

/// The addresses of the users that the low-latency transport serves, looked up by either.
pub struct AddressBook {
    map: BidirMap<AddressKey, String>,
}

impl View for AddressBook {
    type V = Seq<(AddressKey, Seq<char>)>;

    /// The entries, in the order in which they are looked through.
    closed spec fn view(&self) -> Seq<(AddressKey, Seq<char>)> {
        map_entries(self.map)
    }
}

impl AddressBook {
    #[verifier::type_invariant]
    spec fn inv(self) -> bool {
        distinct_addresses(self@) && socket_addresses(self@)
    }

    /// A book without entries.
    pub fn new() -> (r: Self)
        ensures
            r@ == Seq::<(AddressKey, Seq<char>)>::empty(),
    {
        let map = map_new();
        AddressBook { map }
    }

    /// Enters the address of a user. The entry with the same address makes way, or where there is
    /// none, the first entry with the same user.
    pub fn insert(&mut self, address: SocketAddr, user: Username)
        ensures
            final(self)@ == inserted(old(self)@, address.as_key(), user.0@),
    {
        proof {
            use_type_invariant(&*self);
            lemma_insert_keeps_addresses_distinct(self@, address.as_key(), user.0@);
            lemma_insert_keeps_socket_addresses(self@, address, user.0@);
        }
        let mut map = map_new();
        std::mem::swap(&mut self.map, &mut map);
        let _ = map_insert(&mut map, address.to_key(), user.0);
        self.map = map;
    }

    /// Strikes out the first entry with this user, if there is one.
    pub fn remove_by_second(&mut self, user: &Username)
        ensures
            final(self)@ == removed(old(self)@, user.0@),
    {
        proof {
            use_type_invariant(&*self);
            lemma_remove_keeps_entries(self@, user.0@);
        }
        let mut map = map_new();
        std::mem::swap(&mut self.map, &mut map);
        let _ = map_remove_by_second(&mut map, &user.0);
        self.map = map;
    }

    /// The user at this address.
    pub fn get_by_first(&self, address: &SocketAddr) -> (r: Option<Username>)
        ensures
            user_at(self@, address.as_key()) == (match r {
                Some(user) => Some(user.0@),
                None => None,
            }),
    {
        match map_get_by_first(&self.map, &address.to_key()) {
            Some(user) => Some(Username(user.clone())),
            None => None,
        }
    }

    /// The address of this user.
    pub fn get_by_second(&self, user: &Username) -> (r: Option<SocketAddr>)
        ensures
            address_for(self@, user.0@) == (match r {
                Some(address) => Some(address.as_key()),
                None => None,
            }),
    {
        proof {
            use_type_invariant(self);
            lemma_find_user(self@, user.0@);
        }
        match map_get_by_second(&self.map, &user.0) {
            Some(address) => SocketAddr::from_key(address),
            None => None,
        }
    }

    pub fn is_empty(&self) -> (r: bool)
        ensures
            r == (self@.len() == 0),
    {
        map_is_empty(&self.map)
    }
}

proof fn lemma_insert_keeps_socket_addresses(
    entries: Seq<(AddressKey, Seq<char>)>,
    address: SocketAddr,
    user: Seq<char>,
)
    requires
        socket_addresses(entries),
    ensures
        socket_addresses(inserted(entries, address.as_key(), user)),
{
    lemma_find_address(entries, address.as_key());
    lemma_find_user(entries, user);
    let after = inserted(entries, address.as_key(), user);
    assert forall|i: int| 0 <= i < after.len() implies exists|addr: SocketAddr|
        addr.as_key() == (#[trigger] after[i]).0 by {
        if i == after.len() - 1 {
            assert(address.as_key() == after[i].0);
        } else {
            let j = match displaced(entries, address.as_key(), user) {
                Some(d) => if i == d {
                    entries.len() - 1
                } else {
                    i
                },
                None => i,
            };
            assert(after[i] == entries[j]);
        }
    }
}

/// However users come and go, an address belongs to at most one of them: entering one keeps it
/// so.
pub proof fn lemma_insert_keeps_addresses_distinct(
    entries: Seq<(AddressKey, Seq<char>)>,
    address: AddressKey,
    user: Seq<char>,
)
    requires
        distinct_addresses(entries),
    ensures
        distinct_addresses(inserted(entries, address, user)),
{
    lemma_find_address(entries, address);
    lemma_find_user(entries, user);
    let after = inserted(entries, address, user);
    let origin = |i: int|
        match displaced(entries, address, user) {
            Some(d) => if i == d {
                entries.len() - 1
            } else {
                i
            },
            None => i,
        };
    assert forall|i: int| 0 <= i < after.len() - 1 implies after[i] == entries[#[trigger] origin(
        i,
    )] && 0 <= origin(i) < entries.len() && after[i].0 != address by {}
    assert forall|i: int, j: int|
        0 <= i < after.len() && 0 <= j < after.len() && i != j implies (#[trigger] after[i]).0 != (
    #[trigger] after[j]).0 by {
        if i < after.len() - 1 && j < after.len() - 1 {
            assert(after[i] == entries[origin(i)]);
            assert(after[j] == entries[origin(j)]);
        } else if i < after.len() - 1 {
            assert(after[i] == entries[origin(i)]);
        } else {
            assert(after[j] == entries[origin(j)]);
        }
    }
}

proof fn lemma_remove_keeps_entries(entries: Seq<(AddressKey, Seq<char>)>, user: Seq<char>)
    ensures
        distinct_addresses(entries) ==> distinct_addresses(removed(entries, user)),
        distinct_users(entries) ==> distinct_users(removed(entries, user)),
        socket_addresses(entries) ==> socket_addresses(removed(entries, user)),
{
    lemma_find_user(entries, user);
    let after = removed(entries, user);
    if let Some(d) = find_user(entries, user) {
        let origin = |i: int|
            if i == d {
                entries.len() - 1
            } else {
                i
            };
        assert forall|i: int| 0 <= i < after.len() implies #[trigger] after[i]
            == entries[origin(i)] by {}
        if socket_addresses(entries) {
            assert forall|i: int| 0 <= i < after.len() implies exists|addr: SocketAddr|
                addr.as_key() == (#[trigger] after[i]).0 by {
                assert(after[i] == entries[origin(i)]);
            }
        }
    }
}

/// However users come and go, an address belongs to at most one of them: striking one out keeps
/// it so.
pub proof fn lemma_remove_keeps_addresses_distinct(
    entries: Seq<(AddressKey, Seq<char>)>,
    user: Seq<char>,
)
    requires
        distinct_addresses(entries),
    ensures
        distinct_addresses(removed(entries, user)),
{
    lemma_remove_keeps_entries(entries, user);
}

proof fn lemma_user_at(
    entries: Seq<(AddressKey, Seq<char>)>,
    address: AddressKey,
    user: Seq<char>,
)
    requires
        distinct_addresses(entries),
    ensures
        user_at(entries, address) == Some(user) <==> entries.contains((address, user)),
{
    lemma_find_address(entries, address);
    if entries.contains((address, user)) {
        let i = entries.index_of((address, user));
        assert(entries[i].0 == address);
    }
}

proof fn lemma_address_for(
    entries: Seq<(AddressKey, Seq<char>)>,
    address: AddressKey,
    user: Seq<char>,
)
    requires
        distinct_users(entries),
    ensures
        address_for(entries, user) == Some(address) <==> entries.contains((address, user)),
{
    lemma_find_user(entries, user);
    if entries.contains((address, user)) {
        let i = entries.index_of((address, user));
        assert(entries[i].1 == user);
    }
}

proof fn lemma_without(entries: Seq<(AddressKey, Seq<char>)>, d: int, pair: (AddressKey, Seq<char>))
    requires
        distinct_addresses(entries),
        0 <= d < entries.len(),
    ensures
        without(entries, d).contains(pair) <==> entries.contains(pair) && pair != entries[d],
{
    let after = without(entries, d);
    let origin = |i: int|
        if i == d {
            entries.len() - 1
        } else {
            i
        };
    if after.contains(pair) {
        let i = after.index_of(pair);
        assert(after[i] == entries[origin(i)]);
        assert(entries[origin(i)].0 != entries[d].0);
    }
    if entries.contains(pair) && pair != entries[d] {
        let i = entries.index_of(pair);
        let j = if i == entries.len() - 1 {
            d
        } else {
            i
        };
        assert(after[j] == pair);
    }
}

/// What an insertion leaves in the book: the new entry and every old one but that which made way.
proof fn lemma_inserted(
    entries: Seq<(AddressKey, Seq<char>)>,
    address: AddressKey,
    user: Seq<char>,
    pair: (AddressKey, Seq<char>),
)
    requires
        distinct_addresses(entries),
    ensures
        inserted(entries, address, user).contains(pair) <==> pair == (address, user) || (
        entries.contains(pair) && entry_at(entries, displaced(entries, address, user)) != Some(
            pair,
        )),
{
    lemma_find_address(entries, address);
    lemma_find_user(entries, user);
    let kept = match displaced(entries, address, user) {
        Some(d) => {
            lemma_without(entries, d, pair);
            without(entries, d)
        },
        None => entries,
    };
    let after = inserted(entries, address, user);
    assert(after == kept.push((address, user)));
    if pair == (address, user) {
        assert(after.last() == pair);
    }
    if kept.contains(pair) {
        assert(after[kept.index_of(pair)] == pair);
    }
    if after.contains(pair) && pair != (address, user) {
        assert(kept[after.index_of(pair)] == pair);
    }
}

/// A client is found at the address it was entered with. Whoever is at another address stays
/// there, save for the same user.
pub proof fn lemma_inserted_user_is_found(
    entries: Seq<(AddressKey, Seq<char>)>,
    address: AddressKey,
    user: Seq<char>,
)
    requires
        distinct_addresses(entries),
    ensures
        user_at(inserted(entries, address, user), address) == Some(user),
        forall|other: AddressKey|
            other != address && user_at(entries, other) != Some(user) ==> #[trigger] user_at(
                inserted(entries, address, user),
                other,
            ) == user_at(entries, other),
{
    let after = inserted(entries, address, user);
    lemma_insert_keeps_addresses_distinct(entries, address, user);
    lemma_inserted(entries, address, user, (address, user));
    lemma_user_at(after, address, user);
    lemma_find_address(entries, address);
    lemma_find_user(entries, user);
    assert forall|other: AddressKey|
        other != address && user_at(entries, other) != Some(user) implies #[trigger] user_at(
        after,
        other,
    ) == user_at(entries, other) by {
        if let Some(name) = user_at(entries, other) {
            lemma_user_at(entries, other, name);
            lemma_inserted(entries, address, user, (other, name));
            lemma_user_at(after, other, name);
        }
        if let Some(name) = user_at(after, other) {
            lemma_user_at(after, other, name);
            lemma_inserted(entries, address, user, (other, name));
            lemma_user_at(entries, other, name);
        }
    }
}

/// The entry of a new client makes at most one old entry way. So a client that was known under
/// another address, and takes over that of a third, would stay in the book twice. Whenever that is
/// not so, no user is in the book twice after an insertion, the new client is found by name, and
/// every other one is found where it was unless its address was taken over.
pub proof fn lemma_inserted_address_is_found(
    entries: Seq<(AddressKey, Seq<char>)>,
    address: AddressKey,
    user: Seq<char>,
)
    requires
        distinct_addresses(entries),
        distinct_users(entries),
        user_at(entries, address) is None || address_for(entries, user) is None || address_for(
            entries,
            user,
        ) == Some(address),
    ensures
        distinct_users(inserted(entries, address, user)),
        address_for(inserted(entries, address, user), user) == Some(address),
        forall|other: Seq<char>|
            other != user && address_for(entries, other) != Some(address)
                ==> #[trigger] address_for(inserted(entries, address, user), other)
                == address_for(entries, other),
{
    let after = inserted(entries, address, user);
    lemma_insert_keeps_addresses_distinct(entries, address, user);
    lemma_find_address(entries, address);
    lemma_find_user(entries, user);
    assert forall|i: int, j: int|
        0 <= i < after.len() && 0 <= j < after.len() && i != j implies (#[trigger] after[i]).1 != (
    #[trigger] after[j]).1 by {
        if after[i].1 == after[j].1 {
            let name = after[i].1;
            assert(after.contains(after[i]) && after.contains(after[j]));
            assert(after[i].0 != after[j].0);
            lemma_inserted(entries, address, user, after[i]);
            lemma_inserted(entries, address, user, after[j]);
            if entries.contains(after[i]) && entries.contains(after[j]) {
                lemma_address_for(entries, after[i].0, name);
                lemma_address_for(entries, after[j].0, name);
            } else if entries.contains(after[i]) {
                lemma_address_for(entries, after[i].0, user);
            } else if entries.contains(after[j]) {
                lemma_address_for(entries, after[j].0, user);
            }
        }
    }
    lemma_inserted(entries, address, user, (address, user));
    lemma_address_for(after, address, user);
    assert forall|other: Seq<char>|
        other != user && address_for(entries, other) != Some(
            address,
        ) implies #[trigger] address_for(after, other) == address_for(entries, other) by {
        if let Some(place) = address_for(entries, other) {
            lemma_address_for(entries, place, other);
            lemma_inserted(entries, address, user, (place, other));
            lemma_address_for(after, place, other);
        }
        if let Some(place) = address_for(after, other) {
            lemma_address_for(after, place, other);
            lemma_inserted(entries, address, user, (place, other));
            lemma_address_for(entries, place, other);
        }
    }
}

/// A user who was struck out is no longer found, neither by name nor by address. Everybody else
/// is found as before.
pub proof fn lemma_removed_user_is_gone(entries: Seq<(AddressKey, Seq<char>)>, user: Seq<char>)
    requires
        distinct_addresses(entries),
        distinct_users(entries),
    ensures
        address_for(removed(entries, user), user) is None,
        forall|other: Seq<char>|
            other != user ==> #[trigger] address_for(removed(entries, user), other) == address_for(
                entries,
                other,
            ),
        forall|address: AddressKey| #[trigger]
            user_at(removed(entries, user), address) == (if user_at(entries, address) == Some(
                user,
            ) {
                None
            } else {
                user_at(entries, address)
            }),
{
    let after = removed(entries, user);
    lemma_remove_keeps_entries(entries, user);
    lemma_find_user(entries, user);
    let left = |pair: (AddressKey, Seq<char>)| entries.contains(pair) && pair.1 != user;
    assert forall|pair: (AddressKey, Seq<char>)| #[trigger] after.contains(pair) <==> left(pair) by {
        match find_user(entries, user) {
            Some(d) => {
                lemma_without(entries, d, pair);
                if entries.contains(pair) && pair.1 == user {
                    assert(entries[entries.index_of(pair)].1 == entries[d].1);
                }
            },
            None => {},
        }
    }
    if let Some(place) = address_for(after, user) {
        lemma_address_for(after, place, user);
        assert(after.contains((place, user)));
    }
    assert forall|other: Seq<char>| other != user implies #[trigger] address_for(after, other)
        == address_for(entries, other) by {
        if let Some(place) = address_for(entries, other) {
            lemma_address_for(entries, place, other);
            lemma_address_for(after, place, other);
            assert(after.contains((place, other)));
        }
        if let Some(place) = address_for(after, other) {
            lemma_address_for(after, place, other);
            lemma_address_for(entries, place, other);
            assert(after.contains((place, other)));
        }
    }
    assert forall|address: AddressKey| #[trigger]
        user_at(after, address) == (if user_at(entries, address) == Some(user) {
            None
        } else {
            user_at(entries, address)
        }) by {
        if let Some(name) = user_at(entries, address) {
            lemma_user_at(entries, address, name);
            lemma_user_at(after, address, name);
            assert(after.contains((address, name)) <==> left((address, name)));
        }
        if let Some(name) = user_at(after, address) {
            lemma_user_at(after, address, name);
            lemma_user_at(entries, address, name);
            assert(after.contains((address, name)) <==> left((address, name)));
        }
    }
}

/// The user at an address is that of the first entry with the address, and there is none where no
/// entry has it.
pub proof fn lemma_user_at_is_that_of_the_first_entry(
    entries: Seq<(AddressKey, Seq<char>)>,
    address: AddressKey,
)
    ensures
        match user_at(entries, address) {
            Some(user) => exists|i: int|
                0 <= i < entries.len() && #[trigger] entries[i] == (address, user) && forall|j: int|
                    0 <= j < i ==> (#[trigger] entries[j]).0 != address,
            None => forall|j: int| 0 <= j < entries.len() ==> (#[trigger] entries[j]).0 != address,
        },
{
    lemma_find_address(entries, address);
    if let Some(i) = find_address(entries, address) {
        assert(entries[i] == (address, entries[i].1));
    }
}

/// The address of a user is that of the first entry with the user, and there is none where no entry
/// has the user.
pub proof fn lemma_address_is_that_of_the_first_entry(
    entries: Seq<(AddressKey, Seq<char>)>,
    user: Seq<char>,
)
    ensures
        match address_for(entries, user) {
            Some(address) => exists|i: int|
                0 <= i < entries.len() && #[trigger] entries[i] == (address, user) && forall|j: int|
                    0 <= j < i ==> (#[trigger] entries[j]).1 != user,
            None => forall|j: int| 0 <= j < entries.len() ==> (#[trigger] entries[j]).1 != user,
        },
{
    lemma_find_user(entries, user);
    if let Some(i) = find_user(entries, user) {
        assert(entries[i] == (entries[i].0, user));
    }
}

/// Entering a user adds that entry and no other. Every entry of another user at another address
/// stays. Nobody else is left at the address, and where the address was free, the user is left
/// nowhere else.
pub proof fn lemma_insertion_touches_nobody_else(
    entries: Seq<(AddressKey, Seq<char>)>,
    address: AddressKey,
    user: Seq<char>,
    pair: (AddressKey, Seq<char>),
)
    requires
        distinct_addresses(entries),
    ensures
        inserted(entries, address, user).contains((address, user)),
        inserted(entries, address, user).contains(pair) ==> pair == (address, user)
            || entries.contains(pair),
        entries.contains(pair) && pair.0 != address && pair.1 != user ==> inserted(
            entries,
            address,
            user,
        ).contains(pair),
        inserted(entries, address, user).contains(pair) && pair.0 == address ==> pair.1 == user,
        distinct_users(entries) && (forall|j: int|
            0 <= j < entries.len() ==> (#[trigger] entries[j]).0 != address) && inserted(
            entries,
            address,
            user,
        ).contains(pair) && pair.1 == user ==> pair.0 == address,
{
    lemma_inserted(entries, address, user, (address, user));
    lemma_inserted(entries, address, user, pair);
    lemma_find_address(entries, address);
    lemma_find_user(entries, user);
    if entries.contains(pair) {
        let i = entries.index_of(pair);
        assert(entries[i] == pair);
    }
}

/// Striking out a user takes away no entry of anybody else and adds none. Where the user is in the
/// book once, no entry of the user is left; where the user is not in it, the book stays as it is.
pub proof fn lemma_removal_touches_nobody_else(
    entries: Seq<(AddressKey, Seq<char>)>,
    user: Seq<char>,
    pair: (AddressKey, Seq<char>),
)
    requires
        distinct_addresses(entries),
    ensures
        removed(entries, user).contains(pair) ==> entries.contains(pair),
        entries.contains(pair) && pair.1 != user ==> removed(entries, user).contains(pair),
        distinct_users(entries) && removed(entries, user).contains(pair) ==> pair.1 != user,
        (forall|j: int| 0 <= j < entries.len() ==> (#[trigger] entries[j]).1 != user) ==> removed(
            entries,
            user,
        ) == entries,
{
    lemma_find_user(entries, user);
    if let Some(d) = find_user(entries, user) {
        lemma_without(entries, d, pair);
        if entries.contains(pair) && pair.1 == user {
            assert(entries[entries.index_of(pair)].1 == entries[d].1);
        }
    }
}

} // verus!
