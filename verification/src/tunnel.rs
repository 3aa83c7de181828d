//! Tunnels, and the registry that keeps them.
use vstd::prelude::*;

use crate::error::GatewayError;
use crate::table::Table;
use crate::text::{alphanumeric, chars_of, is_alphanumeric, text_of};

verus! {

/// A tunnel that the gateway serves.
#[derive(Debug, PartialEq, Eq)]
pub struct TunnelRecord {
    pub target: String,
    pub expires_at: Option<u64>,
    pub instance_id: String,
    pub challenge_id: String,
    pub user_id: String,
    pub competition_id: Option<String>,
    pub capture: bool,
}

/// A copy of an optional text.
fn copy_text(text: &Option<String>) -> (r: Option<String>)
    ensures
        r == *text,
{
    match text {
        Some(text) => Some(text.clone()),
        None => None,
    }
}

impl Clone for TunnelRecord {
    fn clone(&self) -> (r: Self)
        ensures
            r == *self,
    {
        TunnelRecord {
            target: self.target.clone(),
            expires_at: self.expires_at,
            instance_id: self.instance_id.clone(),
            challenge_id: self.challenge_id.clone(),
            user_id: self.user_id.clone(),
            competition_id: copy_text(&self.competition_id),
            capture: self.capture,
        }
    }
}

impl TunnelRecord {
    /// The tunnel is past its expiry, which counts as passed in the second that it names.
    pub open spec fn expired_at(self, now: u64) -> bool {
        self.expires_at matches Some(expiry) && expiry <= now
    }

    /// Whether the tunnel is past its expiry.
    pub fn is_expired(&self, now: u64) -> (r: bool)
        ensures
            r == self.expired_at(now),
    {
        match self.expires_at {
            Some(expiry) => expiry <= now,
            None => false,
        }
    }
}

/// What a platform asks for when it opens a tunnel.
#[derive(Debug, PartialEq, Eq)]
pub struct TunnelRequest {
    pub key: String,
    pub target: String,
    pub expires_at: Option<u64>,
    pub instance_id: String,
    pub challenge_id: String,
    pub user_id: String,
    pub competition_id: Option<String>,
    pub capture: bool,
}

impl TunnelRequest {
    /// The tunnel that the request describes.
    pub open spec fn record(self) -> TunnelRecord {
        TunnelRecord {
            target: self.target,
            expires_at: self.expires_at,
            instance_id: self.instance_id,
            challenge_id: self.challenge_id,
            user_id: self.user_id,
            competition_id: self.competition_id,
            capture: self.capture,
        }
    }

    /// The tunnel that the request describes.
    pub fn into_record(self) -> (r: TunnelRecord)
        ensures
            r == self.record(),
    {
        TunnelRecord {
            target: self.target,
            expires_at: self.expires_at,
            instance_id: self.instance_id,
            challenge_id: self.challenge_id,
            user_id: self.user_id,
            competition_id: self.competition_id,
            capture: self.capture,
        }
    }
}

/// A character that a key may hold: an ASCII letter or digit, a hyphen or an underscore.
pub open spec fn is_key_char(c: char) -> bool {
    is_alphanumeric(c) || c == '-' || c == '_'
}

/// Every character may stand in a key.
pub open spec fn all_key_chars(s: Seq<char>) -> bool {
    forall|i: int| 0 <= i < s.len() ==> is_key_char(#[trigger] s[i])
}

/// A key of 16 to 128 URL-safe characters.
pub open spec fn valid_key(key: Seq<char>) -> bool {
    16 <= key.len() <= 128 && all_key_chars(key)
}

/// Whether a character may stand in a key.
pub fn key_char(c: char) -> (r: bool)
    ensures
        r == is_key_char(c),
{
    alphanumeric(c) || c == '-' || c == '_'
}

/// Accepts a key of 16 to 128 URL-safe characters.
pub fn validate_key(key: &str) -> (r: Result<(), GatewayError>)
    ensures
        r == (if valid_key(key@) {
            Ok(())
        } else {
            Err(GatewayError::InvalidKey)
        }),
{
    let chars = chars_of(key);
    if chars.len() < 16 || chars.len() > 128 {
        return Err(GatewayError::InvalidKey);
    }
    let mut i: usize = 0;
    while i < chars.len()
        invariant
            chars@ == key@,
            i <= chars@.len(),
            forall|k: int| 0 <= k < i ==> is_key_char(#[trigger] key@[k]),
        decreases chars@.len() - i,
    {
        if !key_char(chars[i]) {
            assert(!is_key_char(key@[i as int]));
            return Err(GatewayError::InvalidKey);
        }
        i = i + 1;
    }
    Ok(())
}

/// The name under which a tunnel's connections are recorded.
pub open spec fn instance_name(record: TunnelRecord, key: Seq<char>) -> Seq<char> {
    if record.instance_id@.len() > 0 {
        record.instance_id@
    } else if key.len() <= 32 {
        key
    } else {
        key.take(32)
    }
}

/// The name under which a tunnel's connections are recorded: its instance, or the first 32
/// characters of its key where it names none.
pub fn instance_of(record: &TunnelRecord, key: &str) -> (r: String)
    ensures
        r@ == instance_name(*record, key@),
{
    if !record.instance_id.as_str().is_empty() {
        return record.instance_id.clone();
    }
    let chars = chars_of(key);
    let end: usize = if chars.len() < 32 {
        chars.len()
    } else {
        32
    };
    assert(chars@.subrange(0, end as int) == key@.take(end as int));
    assert(key@.take(key@.len() as int) == key@);
    text_of(&chars, 0, end)
}

/// The tunnels that have not expired.
pub open spec fn live(
    tunnels: Map<Seq<char>, TunnelRecord>,
    now: u64,
) -> Map<Seq<char>, TunnelRecord> {
    Map::new(
        |key: Seq<char>| tunnels.contains_key(key) && !tunnels[key].expired_at(now),
        |key: Seq<char>| tunnels[key],
    )
}

/// The tunnels that a list of entries describes; of two entries with one key the later counts.
pub open spec fn merged(entries: Seq<(String, TunnelRecord)>) -> Map<Seq<char>, TunnelRecord>
    decreases entries.len(),
{
    if entries.len() == 0 {
        Map::empty()
    } else {
        merged(entries.drop_last()).insert(entries.last().0@, entries.last().1)
    }
}

/// What a look at a key finds.
pub open spec fn found(
    tunnels: Map<Seq<char>, TunnelRecord>,
    key: Seq<char>,
    now: u64,
) -> Result<TunnelRecord, GatewayError> {
    if !tunnels.contains_key(key) {
        Err(GatewayError::TunnelNotFound)
    } else if tunnels[key].expired_at(now) {
        Err(GatewayError::TunnelExpired)
    } else {
        Ok(tunnels[key])
    }
}

/// The registry after a look at a key: an expired tunnel is dropped when it is asked for.
pub open spec fn after_look(
    tunnels: Map<Seq<char>, TunnelRecord>,
    key: Seq<char>,
    now: u64,
) -> Map<Seq<char>, TunnelRecord> {
    if found(tunnels, key, now) == Err::<TunnelRecord, _>(GatewayError::TunnelExpired) {
        tunnels.remove(key)
    } else {
        tunnels
    }
}

/// What reading the file of the registry gave.
pub enum RegistryFile {
    /// The gateway keeps no file.
    NotConfigured,
    /// There is no file yet.
    Missing,
    /// The file could not be read.
    Unreadable,
    /// The file holds no registry.
    Malformed,
    /// The entries that the file holds.
    Entries(Vec<(String, TunnelRecord)>),
}

impl RegistryFile {
    /// The tunnels that the file holds.
    pub open spec fn tunnels(self) -> Map<Seq<char>, TunnelRecord> {
        match self {
            RegistryFile::Entries(entries) => merged(entries@),
            _ => Map::empty(),
        }
    }
}

/// The tunnels that the gateway serves, by their keys.
pub struct Registry {
    tunnels: Table<TunnelRecord>,
}

impl View for Registry {
    type V = Map<Seq<char>, TunnelRecord>;

    closed spec fn view(&self) -> Map<Seq<char>, TunnelRecord> {
        self.tunnels@
    }
}

impl Registry {
    /// No key occurs twice.
    pub closed spec fn wf(self) -> bool {
        self.tunnels.wf()
    }

    /// A registry without tunnels.
    pub fn new() -> (r: Self)
        ensures
            r.wf(),
            r@ == Map::<Seq<char>, TunnelRecord>::empty(),
    {
        Registry { tunnels: Table::new() }
    }

    /// How many tunnels there are, expired ones included.
    pub fn len(&self) -> (r: usize)
        requires
            self.wf(),
        ensures
            r == self@.len(),
    {
        self.tunnels.len()
    }

    /// Opens a tunnel, in place of one with the same key.
    pub fn insert(&mut self, key: &str, record: TunnelRecord)
        requires
            old(self).wf(),
        ensures
            final(self).wf(),
            final(self)@ == old(self)@.insert(key@, record),
    {
        self.tunnels.insert(key, record);
    }

    /// Closes a tunnel.
    pub fn close_tunnel(&mut self, key: &str) -> (r: Result<(), GatewayError>)
        requires
            old(self).wf(),
        ensures
            final(self).wf(),
            final(self)@ == old(self)@.remove(key@),
            r == (if old(self)@.contains_key(key@) {
                Ok(())
            } else {
                Err(GatewayError::TunnelNotFound)
            }),
    {
        if self.tunnels.remove(key) {
            Ok(())
        } else {
            Err(GatewayError::TunnelNotFound)
        }
    }

    /// The tunnel under a key. One that has expired is dropped.
    pub fn active_record(&mut self, key: &str, now: u64) -> (r: Result<TunnelRecord, GatewayError>)
        requires
            old(self).wf(),
        ensures
            final(self).wf(),
            r == found(old(self)@, key@, now),
            final(self)@ == after_look(old(self)@, key@, now),
    {
        let record = match self.tunnels.get(key) {
            Some(record) => record.clone(),
            None => {
                return Err(GatewayError::TunnelNotFound);
            },
        };
        if !record.is_expired(now) {
            Ok(record)
        } else {
            let _ = self.tunnels.remove(key);
            Err(GatewayError::TunnelExpired)
        }
    }

    /// Drops the tunnels that have expired; tells whether there were any.
    pub fn remove_expired(&mut self, now: u64) -> (r: bool)
        requires
            old(self).wf(),
        ensures
            final(self).wf(),
            final(self)@ == live(old(self)@, now),
            r == (final(self)@ != old(self)@),
    {
        let mut removed = false;
        let mut i: usize = 0;
        proof {
            self.tunnels.lemma_keys();
        }
        while i < self.tunnels.len()
            invariant
                self.wf(),
                i <= self.tunnels.keys().len(),
                live(self@, now) == live(old(self)@, now),
                forall|k: int|
                    0 <= k < i ==> !self@[#[trigger] self.tunnels.keys()[k]].expired_at(now),
                !removed ==> self@ == old(self)@,
                removed ==> exists|key: Seq<char>|
                    #[trigger] old(self)@.contains_key(key) && old(self)@[key].expired_at(now),
                forall|key: Seq<char>| #[trigger]
                    self@.contains_key(key) ==> old(self)@.contains_key(key) && self@[key]
                        == old(self)@[key],
            decreases self.tunnels.keys().len() - i,
        {
            let ghost before = self.tunnels;
            let ghost key = before.keys()[i as int];
            if self.tunnels.value_at(i).is_expired(now) {
                assert(old(self)@.contains_key(key) && old(self)@[key].expired_at(now));
                self.tunnels.remove_at(i);
                removed = true;
                assert(live(self@, now) =~= live(before@, now));
                assert forall|k: int| 0 <= k < i implies !self@[#[trigger] self.tunnels.keys()[k]].expired_at(
                    now,
                ) by {
                    assert(self.tunnels.keys()[k] == before.keys()[k]);
                    assert(before.keys()[k] != key);
                    before.lemma_keys();
                }
            } else {
                i = i + 1;
            }
        }
        proof {
            self.tunnels.lemma_keys();
            assert forall|key: Seq<char>| self@.contains_key(key) implies !self@[key].expired_at(
                now,
            ) by {
                let k = self.tunnels.keys().index_of(key);
                assert(self.tunnels.keys()[k] == key);
            }
            assert(live(self@, now) =~= self@);
            if removed {
                let key = choose|key: Seq<char>| #[trigger]
                    old(self)@.contains_key(key) && old(self)@[key].expired_at(now);
                assert(!live(old(self)@, now).contains_key(key));
            }
        }
        removed
    }

    /// The tunnels as a list of entries, each key once.
    pub fn entries(&self) -> (r: Vec<(String, TunnelRecord)>)
        requires
            self.wf(),
        ensures
            merged(r@) == self@,
            r@.len() == self@.len(),
    {
        let mut r: Vec<(String, TunnelRecord)> = Vec::new();
        let mut i: usize = 0;
        proof {
            self.tunnels.lemma_keys();
        }
        while i < self.tunnels.len()
            invariant
                self.wf(),
                i <= self.tunnels.keys().len(),
                r@.len() == i,
                forall|key: Seq<char>| #[trigger]
                    merged(r@).contains_key(key) <==> self.tunnels.keys().take(i as int).contains(key),
                forall|key: Seq<char>| #[trigger]
                    merged(r@).contains_key(key) ==> merged(r@)[key] == self@[key],
            decreases self.tunnels.keys().len() - i,
        {
            let ghost before = r@;
            let ghost keys = self.tunnels.keys();
            r.push((self.tunnels.key_at(i).clone(), self.tunnels.value_at(i).clone()));
            i = i + 1;
            assert(r@.drop_last() == before);
            assert(merged(r@) == merged(before).insert(keys[i - 1], self@[keys[i - 1]]));
            assert(keys.take(i as int) == keys.take(i - 1).push(keys[i - 1]));
            assert forall|key: Seq<char>| #[trigger]
                merged(r@).contains_key(key) <==> keys.take(i as int).contains(key) by {
                if keys.take(i - 1).contains(key) {
                    let k = keys.take(i - 1).index_of(key);
                    assert(keys.take(i as int)[k] == key);
                }
                if key == keys[i - 1] {
                    assert(keys.take(i as int)[i - 1] == key);
                }
            }
        }
        proof {
            self.tunnels.lemma_keys();
            assert(self.tunnels.keys().take(i as int) == self.tunnels.keys());
            assert(merged(r@) =~= self@);
        }
        r
    }
}

/// The registry that a gateway starts with: what its file holds, without the tunnels that have
/// expired. Where there is no usable file it is empty.
pub fn load_registry(file: RegistryFile, now: u64) -> (r: Registry)
    ensures
        r.wf(),
        r@ == live(file.tunnels(), now),
{
    let mut r = Registry::new();
    match file {
        RegistryFile::Entries(entries) => {
            let mut i: usize = 0;
            while i < entries.len()
                invariant
                    i <= entries@.len(),
                    r.wf(),
                    r@ == merged(entries@.take(i as int)),
                decreases entries@.len() - i,
            {
                r.insert(entries[i].0.as_str(), entries[i].1.clone());
                i = i + 1;
                assert(entries@.take(i as int).drop_last() == entries@.take(i - 1));
            }
            assert(entries@.take(entries@.len() as int) == entries@);
            let _ = r.remove_expired(now);
        },
        _ => {
            assert(live(Map::empty(), now) =~= Map::<Seq<char>, TunnelRecord>::empty());
        },
    }
    r
}

/// A tunnel that has expired stays expired.
pub proof fn law_expiry_is_final(record: TunnelRecord, earlier: u64, later: u64)
    requires
        record.expired_at(earlier),
        earlier <= later,
    ensures
        record.expired_at(later),
{
}

/// A tunnel that was opened is found under its key, with all that was asked for, until it expires.
pub proof fn law_opened_tunnel_is_found(
    tunnels: Map<Seq<char>, TunnelRecord>,
    key: Seq<char>,
    record: TunnelRecord,
    now: u64,
)
    requires
        !record.expired_at(now),
    ensures
        found(tunnels.insert(key, record), key, now) == Ok::<_, GatewayError>(record),
{
}

/// A tunnel that was closed is not found any more.
pub proof fn law_closed_tunnel_is_gone(
    tunnels: Map<Seq<char>, TunnelRecord>,
    key: Seq<char>,
    now: u64,
)
    ensures
        found(tunnels.remove(key), key, now) == Err::<TunnelRecord, _>(
            GatewayError::TunnelNotFound,
        ),
{
}

/// An expired tunnel is never found: the first request for it is told that it has expired, any
/// later one that there is no such tunnel.
pub proof fn law_expired_tunnel_is_never_found(
    tunnels: Map<Seq<char>, TunnelRecord>,
    key: Seq<char>,
    now: u64,
    later: u64,
)
    requires
        tunnels.contains_key(key),
        tunnels[key].expired_at(now),
    ensures
        found(tunnels, key, now) == Err::<TunnelRecord, _>(GatewayError::TunnelExpired),
        found(after_look(tunnels, key, now), key, later) == Err::<TunnelRecord, _>(
            GatewayError::TunnelNotFound,
        ),
{
}

/// Opening, closing and asking for a tunnel does not bear on any other.
pub proof fn law_tunnels_are_kept_apart(
    tunnels: Map<Seq<char>, TunnelRecord>,
    key: Seq<char>,
    other: Seq<char>,
    record: TunnelRecord,
    now: u64,
    later: u64,
)
    requires
        key != other,
    ensures
        found(tunnels.insert(key, record), other, later) == found(tunnels, other, later),
        found(tunnels.remove(key), other, later) == found(tunnels, other, later),
        found(after_look(tunnels, key, now), other, later) == found(tunnels, other, later),
{
}

/// A cleanup takes away no tunnel that is still served, leaves none that has expired, and leaves
/// nothing for a second cleanup to do.
pub proof fn law_cleanup_takes_expired_tunnels_only(
    tunnels: Map<Seq<char>, TunnelRecord>,
    key: Seq<char>,
    now: u64,
    later: u64,
)
    requires
        now <= later,
    ensures
        found(tunnels, key, later) is Ok ==> found(live(tunnels, now), key, later) == found(
            tunnels,
            key,
            later,
        ),
        found(live(tunnels, now), key, later) is Ok ==> found(tunnels, key, later) is Ok,
        found(live(tunnels, now), key, now) != Err::<TunnelRecord, _>(GatewayError::TunnelExpired),
        live(live(tunnels, now), now) == live(tunnels, now),
{
    assert(live(live(tunnels, now), now) =~= live(tunnels, now));
}

/// A gateway that starts again serves what it served before: of the tunnels whose entries were
/// stored, each that has not expired is found.
pub proof fn law_stored_tunnels_are_served_again(
    tunnels: Map<Seq<char>, TunnelRecord>,
    file: RegistryFile,
    key: Seq<char>,
    start: u64,
    later: u64,
)
    requires
        file matches RegistryFile::Entries(entries) && merged(entries@) == tunnels,
        start <= later,
    ensures
        found(tunnels, key, later) is Ok ==> found(live(file.tunnels(), start), key, later)
            == found(tunnels, key, later),
        found(live(file.tunnels(), start), key, later) is Ok ==> found(tunnels, key, later) is Ok,
{
    law_cleanup_takes_expired_tunnels_only(tunnels, key, start, later);
}

/// A tunnel expires in the second that its expiry names, and never where it names none.
pub proof fn law_expiry(record: TunnelRecord, now: u64)
    ensures
        record.expires_at matches Some(expiry) ==> (record.expired_at(now) <==> now >= expiry),
        record.expires_at is None ==> !record.expired_at(now),
{
}

/// A request opens the tunnel that it describes, in every part.
pub proof fn law_request_describes_its_tunnel(request: TunnelRequest)
    ensures
        request.record().target == request.target,
        request.record().expires_at == request.expires_at,
        request.record().instance_id == request.instance_id,
        request.record().challenge_id == request.challenge_id,
        request.record().user_id == request.user_id,
        request.record().competition_id == request.competition_id,
        request.record().capture == request.capture,
{
}

/// A character of a key, spelled out.
pub open spec fn is_letter_digit_hyphen_or_underscore(c: char) -> bool {
    ||| 'a' <= c <= 'z'
    ||| 'A' <= c <= 'Z'
    ||| '0' <= c <= '9'
    ||| c == '-'
    ||| c == '_'
}

/// A key is valid exactly where it has 16 to 128 characters and each of them is a letter, a digit, a
/// hyphen or an underscore.
pub proof fn law_valid_key(key: Seq<char>)
    ensures
        valid_key(key) <==> key.len() >= 16 && key.len() <= 128 && forall|i: int|
            0 <= i < key.len() ==> is_letter_digit_hyphen_or_underscore(#[trigger] key[i]),
        forall|c: char|
            #[trigger] is_key_char(c) <==> is_letter_digit_hyphen_or_underscore(c),
        all_key_chars(key) <==> forall|i: int|
            0 <= i < key.len() ==> is_letter_digit_hyphen_or_underscore(#[trigger] key[i]),
{
    if all_key_chars(key) {
        assert forall|i: int|
            0 <= i < key.len() implies is_letter_digit_hyphen_or_underscore(#[trigger] key[i]) by {
            assert(is_key_char(key[i]));
        }
    } else {
        let i = choose|i: int| 0 <= i < key.len() && !is_key_char(#[trigger] key[i]);
        assert(!is_letter_digit_hyphen_or_underscore(key[i]));
    }
}

/// The connections of a tunnel are recorded under its instance; where it names none, under what its
/// key begins with, 32 characters at most.
pub proof fn law_instance_name(record: TunnelRecord, key: Seq<char>, rest: Seq<char>)
    ensures
        record.instance_id@.len() > 0 ==> instance_name(record, key) == record.instance_id@,
        record.instance_id@.len() == 0 && key.len() <= 32 ==> instance_name(record, key) == key,
        record.instance_id@.len() == 0 && key.len() == 32 ==> instance_name(record, key + rest)
            == key,
{
    assert((key + rest).take(key.len() as int) == key);
    if rest.len() == 0 {
        assert(key + rest == key);
    }
}

/// Of the entries of a list, the last one with a key counts; a key that no entry has is not there.
pub proof fn law_last_entry_counts(
    earlier: Seq<(String, TunnelRecord)>,
    entry: (String, TunnelRecord),
    later: Seq<(String, TunnelRecord)>,
    key: Seq<char>,
)
    requires
        forall|i: int| 0 <= i < later.len() ==> (#[trigger] later[i]).0@ != key,
    ensures
        entry.0@ == key ==> merged(earlier.push(entry) + later).contains_key(key) && merged(
            earlier.push(entry) + later,
        )[key] == entry.1,
        !merged(later).contains_key(key),
    decreases later.len(),
{
    let all = earlier.push(entry) + later;
    if later.len() == 0 {
        assert(all == earlier.push(entry));
        assert(all.drop_last() == earlier);
    } else {
        assert(later.last() == later[later.len() - 1]);
        assert forall|i: int| 0 <= i < later.drop_last().len() implies (#[trigger] later.drop_last()[
            i]).0@ != key by {
            assert(later.drop_last()[i] == later[i]);
        }
        law_last_entry_counts(earlier, entry, later.drop_last(), key);
        assert(all.last() == later.last());
        assert(all.drop_last() == earlier.push(entry) + later.drop_last());
    }
}

/// A file gives the tunnels of its entries, and without entries none.
pub proof fn law_registry_files(entries: Vec<(String, TunnelRecord)>)
    ensures
        RegistryFile::Entries(entries).tunnels() == merged(entries@),
        RegistryFile::NotConfigured.tunnels() == Map::<Seq<char>, TunnelRecord>::empty(),
        RegistryFile::Missing.tunnels() == Map::<Seq<char>, TunnelRecord>::empty(),
        RegistryFile::Unreadable.tunnels() == Map::<Seq<char>, TunnelRecord>::empty(),
        RegistryFile::Malformed.tunnels() == Map::<Seq<char>, TunnelRecord>::empty(),
{
}

/// Dropping expired tunnels keeps exactly those whose expiry is still to come, or that name none,
/// and changes none of them.
pub proof fn law_live_tunnels(tunnels: Map<Seq<char>, TunnelRecord>, key: Seq<char>, now: u64)
    ensures
        live(tunnels, now).contains_key(key) <==> tunnels.contains_key(key) && (
        tunnels[key].expires_at matches Some(expiry) ==> expiry > now),
        live(tunnels, now).contains_key(key) ==> live(tunnels, now)[key] == tunnels[key],
{
}

/// A look at a key drops the tunnel under it where it has expired, and changes nothing else.
pub proof fn law_look_drops_an_expired_tunnel(
    tunnels: Map<Seq<char>, TunnelRecord>,
    key: Seq<char>,
    expiry: u64,
    now: u64,
)
    ensures
        tunnels.contains_key(key) && tunnels[key].expires_at == Some(expiry) && expiry <= now
            ==> after_look(tunnels, key, now) == tunnels.remove(key),
        tunnels.contains_key(key) && tunnels[key].expires_at == Some(expiry) && expiry > now
            ==> after_look(tunnels, key, now) == tunnels,
        tunnels.contains_key(key) && tunnels[key].expires_at is None ==> after_look(
            tunnels,
            key,
            now,
        ) == tunnels,
        !tunnels.contains_key(key) ==> after_look(tunnels, key, now) == tunnels,
{
}

} // verus!
