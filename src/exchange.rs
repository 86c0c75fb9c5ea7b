//! Handshake records and the store that drives them through their lifecycle.
use vstd::prelude::*;

use crate::clock::{next_stamp, stamp, wall_clock_millis, EXPIRY_WINDOW_MILLIS};

verus! {

/// Where a handshake stands.
#[derive(Clone, Copy, Debug, PartialEq, Eq, Structural)]
pub enum KeyExchangeStatus {
    /// Waiting for the responder.
    Initiated,
    /// The responder has answered with its signature and the encapsulated secret.
    Paired,
    /// Both parties have exchanged keys.
    Complete,
    /// Timed out waiting for the responder; such a record is dropped, never kept.
    Expired,
}

/// Why a store operation was refused. A refused operation changes nothing.
#[derive(Clone, Copy, Debug, PartialEq, Eq, Structural)]
pub enum ExchangeError {
    /// A completed exchange already exists for the pair.
    Conflict,
    /// No record exists for the pair.
    NotFound,
    /// The record is not in the status that the operation requires (given here).
    InvalidState(KeyExchangeStatus),
}

/// One key-exchange attempt between an initiator and a responder. Every
/// cryptographic value is an opaque string; times are milliseconds since the
/// Unix epoch.
#[derive(Clone, Debug)]
pub struct KeyExchange {
    pub initiator_falcon_pubkey: String,
    pub responder_falcon_pubkey: String,
    pub initiator_kyber_pubkey: String,
    pub initiator_signature: String,
    pub responder_signature: Option<String>,
    pub encapsulated_secret: Option<String>,
    pub status: KeyExchangeStatus,
    pub created_at: i64,
    pub paired_at: Option<i64>,
    pub completed_at: Option<i64>,
}

/// The mathematical content of a `KeyExchange`.
pub struct KeyExchangeView {
    pub initiator: Seq<char>,
    pub responder: Seq<char>,
    pub kyber_pubkey: Seq<char>,
    pub initiator_signature: Seq<char>,
    pub responder_signature: Option<Seq<char>>,
    pub encapsulated_secret: Option<Seq<char>>,
    pub status: KeyExchangeStatus,
    pub created_at: i64,
    pub paired_at: Option<i64>,
    pub completed_at: Option<i64>,
}

/// The ordered pair (initiator, responder) that names a handshake. Swapping
/// the two parties names another handshake.
#[derive(Clone, Debug, PartialEq, Eq)]
pub struct ExchangeId {
    pub initiator: String,
    pub responder: String,
}

impl View for ExchangeId {
    type V = PairKey;

    open spec fn view(&self) -> PairKey {
        (self.initiator@, self.responder@)
    }
}

/// The ordered pair (initiator, responder) that identifies a handshake.
pub type PairKey = (Seq<char>, Seq<char>);

/// The live handshakes of a store, by pair key.
pub type ExchangeMap = Map<PairKey, KeyExchangeView>;

pub open spec fn opt_view(o: Option<String>) -> Option<Seq<char>> {
    match o {
        Some(s) => Some(s@),
        None => None,
    }
}

impl View for KeyExchange {
    type V = KeyExchangeView;

    open spec fn view(&self) -> KeyExchangeView {
        KeyExchangeView {
            initiator: self.initiator_falcon_pubkey@,
            responder: self.responder_falcon_pubkey@,
            kyber_pubkey: self.initiator_kyber_pubkey@,
            initiator_signature: self.initiator_signature@,
            responder_signature: opt_view(self.responder_signature),
            encapsulated_secret: opt_view(self.encapsulated_secret),
            status: self.status,
            created_at: self.created_at,
            paired_at: self.paired_at,
            completed_at: self.completed_at,
        }
    }
}

pub open spec fn key_of(e: KeyExchangeView) -> PairKey {
    (e.initiator, e.responder)
}

/// The fields that a status carries are present exactly in that status, and
/// the lifecycle times never decrease.
pub open spec fn record_wf(e: KeyExchangeView) -> bool {
    let answered = e.status == KeyExchangeStatus::Paired || e.status
        == KeyExchangeStatus::Complete;
    &&& e.status != KeyExchangeStatus::Expired
    &&& (e.responder_signature is Some) == answered
    &&& (e.encapsulated_secret is Some) == answered
    &&& (e.paired_at is Some) == answered
    &&& (e.completed_at is Some) == (e.status == KeyExchangeStatus::Complete)
    &&& (e.paired_at matches Some(p) ==> e.created_at <= p)
    &&& (e.completed_at matches Some(c) ==> (e.paired_at matches Some(p) && p <= c))
}

/// Every time recorded in `e` is at most `t`.
pub open spec fn stamped_by(e: KeyExchangeView, t: i64) -> bool {
    &&& e.created_at <= t
    &&& (e.paired_at matches Some(p) ==> p <= t)
    &&& (e.completed_at matches Some(c) ==> c <= t)
}

/// A fresh handshake, as opened at time `at`.
pub open spec fn initiated(k: PairKey, kx: Seq<char>, sig: Seq<char>, at: i64) -> KeyExchangeView {
    KeyExchangeView {
        initiator: k.0,
        responder: k.1,
        kyber_pubkey: kx,
        initiator_signature: sig,
        responder_signature: None,
        encapsulated_secret: None,
        status: KeyExchangeStatus::Initiated,
        created_at: at,
        paired_at: None,
        completed_at: None,
    }
}

/// `e` answered by the responder at time `at`.
pub open spec fn paired(e: KeyExchangeView, secret: Seq<char>, sig: Seq<char>, at: i64) -> KeyExchangeView {
    KeyExchangeView {
        responder_signature: Some(sig),
        encapsulated_secret: Some(secret),
        status: KeyExchangeStatus::Paired,
        paired_at: Some(at),
        ..e
    }
}

/// `e` completed at time `at`.
pub open spec fn completed(e: KeyExchangeView, at: i64) -> KeyExchangeView {
    KeyExchangeView { status: KeyExchangeStatus::Complete, completed_at: Some(at), ..e }
}

/// Opening a handshake for `k` at time `at`: refused while a completed one
/// exists for `k`, otherwise it replaces whatever record `k` had.
pub open spec fn init_step(m: ExchangeMap, k: PairKey, kx: Seq<char>, sig: Seq<char>, at: i64) -> (
    ExchangeMap,
    Result<KeyExchangeView, ExchangeError>,
) {
    if m.contains_key(k) && m[k].status == KeyExchangeStatus::Complete {
        (m, Err(ExchangeError::Conflict))
    } else {
        (m.insert(k, initiated(k, kx, sig, at)), Ok(initiated(k, kx, sig, at)))
    }
}

/// The responder answering the handshake `k` at time `at`.
pub open spec fn pair_step(m: ExchangeMap, k: PairKey, secret: Seq<char>, sig: Seq<char>, at: i64) -> (
    ExchangeMap,
    Result<KeyExchangeView, ExchangeError>,
) {
    if !m.contains_key(k) {
        (m, Err(ExchangeError::NotFound))
    } else if m[k].status != KeyExchangeStatus::Initiated {
        (m, Err(ExchangeError::InvalidState(KeyExchangeStatus::Initiated)))
    } else {
        (m.insert(k, paired(m[k], secret, sig, at)), Ok(paired(m[k], secret, sig, at)))
    }
}

/// Completing the handshake `k` at time `at`.
pub open spec fn complete_step(m: ExchangeMap, k: PairKey, at: i64) -> (
    ExchangeMap,
    Result<KeyExchangeView, ExchangeError>,
) {
    if !m.contains_key(k) {
        (m, Err(ExchangeError::NotFound))
    } else if m[k].status != KeyExchangeStatus::Paired {
        (m, Err(ExchangeError::InvalidState(KeyExchangeStatus::Paired)))
    } else {
        (m.insert(k, completed(m[k], at)), Ok(completed(m[k], at)))
    }
}

/// An unanswered handshake whose age at `now` has reached `window`.
pub open spec fn is_expired(e: KeyExchangeView, now: i64, window: i64) -> bool {
    e.status == KeyExchangeStatus::Initiated && e.created_at <= now - window
}

/// `s` lists, each once and with its pair key, exactly the records of `m`
/// whose responder is `responder` and whose status is `status`.
pub open spec fn lists_matching(
    m: ExchangeMap,
    responder: Seq<char>,
    status: KeyExchangeStatus,
    s: Seq<(PairKey, KeyExchangeView)>,
) -> bool {
    &&& forall|i: int|
        0 <= i < s.len() ==> m.contains_key((#[trigger] s[i]).0) && m[s[i].0] == s[i].1 && s[i].1.responder
            == responder && s[i].1.status == status
    &&& forall|k: PairKey|
        #[trigger] m.contains_key(k) && m[k].responder == responder && m[k].status == status ==> exists|
            i: int,
        |
            0 <= i < s.len() && (#[trigger] s[i]).0 == k
    &&& forall|i: int, j: int| 0 <= i < j < s.len() ==> s[i].0 != s[j].0
}

pub open spec fn listing_view(v: Seq<(ExchangeId, KeyExchange)>) -> Seq<(PairKey, KeyExchangeView)> {
    v.map_values(|p: (ExchangeId, KeyExchange)| (p.0@, p.1@))
}

/// What is left of `m` after a sweep at `now`.
pub open spec fn sweep_step(m: ExchangeMap, now: i64, window: i64) -> ExchangeMap {
    Map::new(|k: PairKey| m.contains_key(k) && !is_expired(m[k], now, window), |k: PairKey| m[k])
}

pub open spec fn result_view(r: Result<KeyExchange, ExchangeError>) -> Result<KeyExchangeView, ExchangeError> {
    match r {
        Ok(e) => Ok(e@),
        Err(x) => Err(x),
    }
}

fn copy_opt(o: &Option<String>) -> (r: Option<String>)
    ensures
        opt_view(r) == opt_view(*o),
{
    match o {
        Some(s) => Some(s.clone()),
        None => None,
    }
}

impl KeyExchange {
    /// A copy of this record, handed out so that nobody holds a reference into a store.
    pub fn snapshot(&self) -> (r: KeyExchange)
        ensures
            r@ == self@,
    {
        KeyExchange {
            initiator_falcon_pubkey: self.initiator_falcon_pubkey.clone(),
            responder_falcon_pubkey: self.responder_falcon_pubkey.clone(),
            initiator_kyber_pubkey: self.initiator_kyber_pubkey.clone(),
            initiator_signature: self.initiator_signature.clone(),
            responder_signature: copy_opt(&self.responder_signature),
            encapsulated_secret: copy_opt(&self.encapsulated_secret),
            status: self.status,
            created_at: self.created_at,
            paired_at: self.paired_at,
            completed_at: self.completed_at,
        }
    }
}

/// The live handshakes, at most one per ordered pair (initiator, responder).
pub struct ExchangeStore {
    records: Vec<KeyExchange>,
    last_stamp: i64,
    entries: Ghost<ExchangeMap>,
}

impl View for ExchangeStore {
    type V = ExchangeMap;

    closed spec fn view(&self) -> ExchangeMap {
        self.entries@
    }
}

impl ExchangeStore {
    /// The last timestamp this store issued; every time it holds is at most this.
    pub closed spec fn last_stamp(&self) -> i64 {
        self.last_stamp
    }

    spec fn key_at(&self, i: int) -> PairKey {
        key_of(self.records@[i]@)
    }

    pub closed spec fn wf(&self) -> bool {
        &&& forall|i: int|
            0 <= i < self.records.len() ==> self.entries@.contains_key(#[trigger] self.key_at(i))
                && self.entries@[self.key_at(i)] == self.records@[i]@
        &&& forall|k: PairKey| #[trigger]
            self.entries@.contains_key(k) ==> exists|i: int|
                0 <= i < self.records.len() && self.key_at(i) == k
        &&& forall|i: int, j: int|
            0 <= i < j < self.records.len() ==> self.key_at(i) != self.key_at(j)
        &&& self.entries@.dom().finite()
        &&& self.entries@.dom().len() == self.records.len()
        &&& forall|k: PairKey| #[trigger]
            self.entries@.contains_key(k) ==> record_wf(self.entries@[k]) && stamped_by(
                self.entries@[k],
                self.last_stamp,
            ) && key_of(self.entries@[k]) == k
    }

    /// Every live record is keyed by its own (initiator, responder), carries
    /// exactly the fields of its status, has non-decreasing lifecycle times, and
    /// holds no time later than the last one the store issued.
    pub proof fn lemma_records_wf(&self)
        requires
            self.wf(),
        ensures
            forall|k: PairKey| #[trigger]
                self@.contains_key(k) ==> record_wf(self@[k]) && key_of(self@[k]) == k && stamped_by(
                    self@[k],
                    self.last_stamp(),
                ),
    {
    }

    /// An empty store.
    pub fn new() -> (r: ExchangeStore)
        ensures
            r.wf(),
            r@ == ExchangeMap::empty(),
            r.last_stamp() == i64::MIN,
    {
        ExchangeStore { records: Vec::new(), last_stamp: i64::MIN, entries: Ghost(Map::empty()) }
    }

    fn find(&self, initiator: &String, responder: &String) -> (r: Option<usize>)
        requires
            self.wf(),
        ensures
            match r {
                Some(i) => i < self.records.len() && self.key_at(i as int) == (initiator@, responder@),
                None => !self@.contains_key((initiator@, responder@)),
            },
    {
        let mut i: usize = 0;
        while i < self.records.len()
            invariant
                self.wf(),
                i <= self.records.len(),
                forall|j: int| 0 <= j < i ==> self.key_at(j) != (initiator@, responder@),
            decreases self.records.len() - i,
        {
            if self.records[i].initiator_falcon_pubkey == *initiator
                && self.records[i].responder_falcon_pubkey == *responder {
                return Some(i);
            }
            i += 1;
        }
        None
    }

    /// Stores `e` under its pair key, in place of the record found at `found`
    /// or as a new entry.
    fn put(&mut self, found: Option<usize>, e: KeyExchange, at: i64)
        requires
            old(self).wf(),
            old(self).last_stamp() <= at,
            record_wf(e@),
            stamped_by(e@, at),
            match found {
                Some(i) => i < old(self).records.len() && old(self).key_at(i as int) == key_of(e@),
                None => !old(self)@.contains_key(key_of(e@)),
            },
        ensures
            final(self).wf(),
            final(self)@ == old(self)@.insert(key_of(e@), e@),
            final(self).last_stamp() == at,
    {
        let ghost k = key_of(e@);
        let ghost v = e@;
        let ghost old_self = *self;
        let ghost idx: int = match found {
            Some(i) => i as int,
            None => self.records.len() as int,
        };
        match found {
            Some(i) => {
                self.records.set(i, e);
            },
            None => {
                self.records.push(e);
            },
        }
        self.last_stamp = at;
        self.entries = Ghost(self.entries@.insert(k, v));
        proof {
            let n = self.records.len() as int;
            assert(self.key_at(idx) == k);
            assert forall|j: int| 0 <= j < n && j != idx implies self.records@[j] == old_self.records@[j]
                && #[trigger] self.key_at(j) == old_self.key_at(j) && self.key_at(j) != k by {
                assert(old_self.entries@.contains_key(old_self.key_at(j)));
                if found is Some {
                    assert(j < idx || idx < j);
                }
            }
            assert forall|j: int| 0 <= j < n implies self.entries@.contains_key(#[trigger] self.key_at(j))
                && self.entries@[self.key_at(j)] == self.records@[j]@ by {
                if j != idx {
                    assert(old_self.entries@.contains_key(old_self.key_at(j)));
                }
            }
            assert forall|q: PairKey| #[trigger] self.entries@.contains_key(q) implies exists|i: int|
                0 <= i < n && self.key_at(i) == q by {
                if q == k {
                    assert(self.key_at(idx) == q);
                } else {
                    assert(old_self.entries@.contains_key(q));
                    let i = choose|i: int| 0 <= i < old_self.records.len() && old_self.key_at(i) == q;
                    assert(i != idx);
                    assert(self.key_at(i) == q);
                }
            }
            assert forall|i: int, j: int| 0 <= i < j < n implies self.key_at(i) != self.key_at(j) by {
                if i != idx && j != idx {
                    assert(old_self.key_at(i) != old_self.key_at(j));
                }
            }
            if found is Some {
                assert(self.entries@.dom() =~= old_self.entries@.dom());
            }
        }
    }

    /// Opens a handshake from `initiator` to `responder` at wall-clock time `now`.
    /// Refused with `Conflict` while a completed handshake exists for the pair;
    /// any other record of the pair is replaced by the new one.
    pub fn init_key_exchange_at(
        &mut self,
        initiator: String,
        responder: String,
        kx_pubkey: String,
        signature: String,
        now: i64,
    ) -> (r: Result<KeyExchange, ExchangeError>)
        requires
            old(self).wf(),
        ensures
            final(self).wf(),
            (final(self)@, result_view(r)) == init_step(
                old(self)@,
                (initiator@, responder@),
                kx_pubkey@,
                signature@,
                next_stamp(old(self).last_stamp(), now),
            ),
            final(self).last_stamp() == if r is Ok {
                next_stamp(old(self).last_stamp(), now)
            } else {
                old(self).last_stamp()
            },
    {
        let at = stamp(self.last_stamp, now);
        let found = self.find(&initiator, &responder);
        if let Some(i) = found {
            if self.records[i].status == KeyExchangeStatus::Complete {
                return Err(ExchangeError::Conflict);
            }
        }
        let e = KeyExchange {
            initiator_falcon_pubkey: initiator,
            responder_falcon_pubkey: responder,
            initiator_kyber_pubkey: kx_pubkey,
            initiator_signature: signature,
            responder_signature: None,
            encapsulated_secret: None,
            status: KeyExchangeStatus::Initiated,
            created_at: at,
            paired_at: None,
            completed_at: None,
        };
        let out = e.snapshot();
        self.put(found, e, at);
        Ok(out)
    }

    /// Opens a handshake as `init_key_exchange_at` does, stamped with the
    /// current wall-clock time.
    pub fn init_key_exchange(
        &mut self,
        initiator: String,
        responder: String,
        kx_pubkey: String,
        signature: String,
    ) -> (r: Result<KeyExchange, ExchangeError>)
        requires
            old(self).wf(),
        ensures
            final(self).wf(),
            final(self).last_stamp() >= old(self).last_stamp(),
            exists|at: i64|
                at >= old(self).last_stamp() && (final(self)@, result_view(r)) == #[trigger] init_step(
                    old(self)@,
                    (initiator@, responder@),
                    kx_pubkey@,
                    signature@,
                    at,
                ),
    {
        let now = wall_clock_millis();
        let ghost at = next_stamp(self.last_stamp, now);
        let r = self.init_key_exchange_at(initiator, responder, kx_pubkey, signature, now);
        assert(at >= old(self).last_stamp());
        r
    }

    /// The responder answers the handshake from `initiator` to `responder` at
    /// wall-clock time `now`, with its signature and the encapsulated secret.
    /// `NotFound` if the pair has no record; `InvalidState(Initiated)` if the
    /// record is not waiting for an answer.
    pub fn pair_exchange_at(
        &mut self,
        initiator: &String,
        responder: &String,
        encapsulated_secret: String,
        responder_signature: String,
        now: i64,
    ) -> (r: Result<KeyExchange, ExchangeError>)
        requires
            old(self).wf(),
        ensures
            final(self).wf(),
            (final(self)@, result_view(r)) == pair_step(
                old(self)@,
                (initiator@, responder@),
                encapsulated_secret@,
                responder_signature@,
                next_stamp(old(self).last_stamp(), now),
            ),
            final(self).last_stamp() == if r is Ok {
                next_stamp(old(self).last_stamp(), now)
            } else {
                old(self).last_stamp()
            },
    {
        let at = stamp(self.last_stamp, now);
        match self.find(initiator, responder) {
            None => Err(ExchangeError::NotFound),
            Some(i) => {
                if self.records[i].status != KeyExchangeStatus::Initiated {
                    return Err(ExchangeError::InvalidState(KeyExchangeStatus::Initiated));
                }
                let mut e = self.records[i].snapshot();
                e.responder_signature = Some(responder_signature);
                e.encapsulated_secret = Some(encapsulated_secret);
                e.status = KeyExchangeStatus::Paired;
                e.paired_at = Some(at);
                let out = e.snapshot();
                self.put(Some(i), e, at);
                Ok(out)
            },
        }
    }

    /// Answers a handshake as `pair_exchange_at` does, stamped with the current
    /// wall-clock time.
    pub fn pair_exchange(
        &mut self,
        initiator: &String,
        responder: &String,
        encapsulated_secret: String,
        responder_signature: String,
    ) -> (r: Result<KeyExchange, ExchangeError>)
        requires
            old(self).wf(),
        ensures
            final(self).wf(),
            final(self).last_stamp() >= old(self).last_stamp(),
            exists|at: i64|
                at >= old(self).last_stamp() && (final(self)@, result_view(r)) == #[trigger] pair_step(
                    old(self)@,
                    (initiator@, responder@),
                    encapsulated_secret@,
                    responder_signature@,
                    at,
                ),
    {
        let now = wall_clock_millis();
        let ghost at = next_stamp(self.last_stamp, now);
        let r = self.pair_exchange_at(initiator, responder, encapsulated_secret, responder_signature, now);
        assert(at >= old(self).last_stamp());
        r
    }

    /// Completes the handshake from `initiator` to `responder` at wall-clock
    /// time `now`. `NotFound` if the pair has no record; `InvalidState(Paired)`
    /// if the record is not paired.
    pub fn complete_exchange_at(&mut self, initiator: &String, responder: &String, now: i64) -> (r:
        Result<KeyExchange, ExchangeError>)
        requires
            old(self).wf(),
        ensures
            final(self).wf(),
            (final(self)@, result_view(r)) == complete_step(
                old(self)@,
                (initiator@, responder@),
                next_stamp(old(self).last_stamp(), now),
            ),
            final(self).last_stamp() == if r is Ok {
                next_stamp(old(self).last_stamp(), now)
            } else {
                old(self).last_stamp()
            },
    {
        let at = stamp(self.last_stamp, now);
        match self.find(initiator, responder) {
            None => Err(ExchangeError::NotFound),
            Some(i) => {
                if self.records[i].status != KeyExchangeStatus::Paired {
                    return Err(ExchangeError::InvalidState(KeyExchangeStatus::Paired));
                }
                let mut e = self.records[i].snapshot();
                e.status = KeyExchangeStatus::Complete;
                e.completed_at = Some(at);
                let out = e.snapshot();
                self.put(Some(i), e, at);
                Ok(out)
            },
        }
    }

    /// Completes a handshake as `complete_exchange_at` does, stamped with the
    /// current wall-clock time.
    pub fn complete_exchange(&mut self, initiator: &String, responder: &String) -> (r: Result<
        KeyExchange,
        ExchangeError,
    >)
        requires
            old(self).wf(),
        ensures
            final(self).wf(),
            final(self).last_stamp() >= old(self).last_stamp(),
            exists|at: i64|
                at >= old(self).last_stamp() && (final(self)@, result_view(r)) == #[trigger] complete_step(
                    old(self)@,
                    (initiator@, responder@),
                    at,
                ),
    {
        let now = wall_clock_millis();
        let ghost at = next_stamp(self.last_stamp, now);
        let r = self.complete_exchange_at(initiator, responder, now);
        assert(at >= old(self).last_stamp());
        r
    }

    /// A copy of the live record for the pair, if any.
    pub fn get_exchange(&self, initiator: &String, responder: &String) -> (r: Option<KeyExchange>)
        requires
            self.wf(),
        ensures
            match r {
                Some(e) => self@.contains_key((initiator@, responder@)) && e@ == self@[(initiator@, responder@)],
                None => !self@.contains_key((initiator@, responder@)),
            },
    {
        match self.find(initiator, responder) {
            Some(i) => Some(self.records[i].snapshot()),
            None => None,
        }
    }

    /// Every live record whose responder is `responder` and whose status is
    /// `status`, with its pair key. The order is the store's and means nothing.
    pub fn list_by_responder_and_status(&self, responder: &String, status: KeyExchangeStatus) -> (r:
        Vec<(ExchangeId, KeyExchange)>)
        requires
            self.wf(),
        ensures
            lists_matching(self@, responder@, status, listing_view(r@)),
    {
        let mut out: Vec<(ExchangeId, KeyExchange)> = Vec::new();
        let ghost mut src: Seq<int> = Seq::empty();
        let mut i: usize = 0;
        while i < self.records.len()
            invariant
                self.wf(),
                i <= self.records.len(),
                src.len() == out.len(),
                forall|j: int|
                    0 <= j < src.len() ==> 0 <= #[trigger] src[j] < i && listing_view(out@)[j] == (
                        self.key_at(src[j]),
                        self.records@[src[j]]@,
                    ) && self.records@[src[j]]@.responder == responder@ && self.records@[src[j]]@.status
                        == status,
                forall|a: int, b: int| 0 <= a < b < src.len() ==> src[a] < src[b],
                forall|x: int|
                    0 <= x < i && (#[trigger] self.records@[x])@.responder == responder@
                        && self.records@[x]@.status == status ==> exists|j: int| 0 <= j < src.len() && src[j] == x,
            decreases self.records.len() - i,
        {
            if self.records[i].responder_falcon_pubkey == *responder && self.records[i].status == status {
                let id = ExchangeId {
                    initiator: self.records[i].initiator_falcon_pubkey.clone(),
                    responder: self.records[i].responder_falcon_pubkey.clone(),
                };
                let ghost prev = listing_view(out@);
                out.push((id, self.records[i].snapshot()));
                proof {
                    assert(listing_view(out@) =~= prev.push((self.key_at(i as int), self.records@[i as int]@)));
                    let old_src = src;
                    src = src.push(i as int);
                    assert forall|x: int|
                        0 <= x < i + 1 && (#[trigger] self.records@[x])@.responder == responder@
                            && self.records@[x]@.status == status implies exists|j: int| 0 <= j < src.len() && src[j] == x by {
                        if x < i {
                            let j = choose|j: int| 0 <= j < old_src.len() && old_src[j] == x;
                            assert(src[j] == x);
                        } else {
                            assert(src[old_src.len() as int] == x);
                        }
                    }
                }
            }
            i += 1;
        }
        proof {
            let v = listing_view(out@);
            assert forall|k: PairKey|
                #[trigger] self@.contains_key(k) && self@[k].responder == responder@ && self@[k].status == status implies exists|j: int|
                    0 <= j < v.len() && (#[trigger] v[j]).0 == k by {
                let x = choose|x: int| 0 <= x < self.records.len() && self.key_at(x) == k;
                assert(self.records@[x]@ == self@[k]);
                let j = choose|j: int| 0 <= j < src.len() && src[j] == x;
                assert(v[j].0 == k);
            }
            assert forall|a: int, b: int| 0 <= a < b < v.len() implies v[a].0 != v[b].0 by {
                assert(src[a] < src[b]);
            }
            assert forall|j: int| 0 <= j < v.len() implies self@.contains_key((#[trigger] v[j]).0) && self@[v[j].0] == v[j].1
                && v[j].1.responder == responder@ && v[j].1.status == status by {
                assert(0 <= src[j] < self.records.len());
                assert(v[j] == (self.key_at(src[j]), self.records@[src[j]]@));
            }
        }
        out
    }

    /// Live records waiting for `responder` to answer.
    pub fn initiated_exchanges(&self, responder: &String) -> (r: Vec<(ExchangeId, KeyExchange)>)
        requires
            self.wf(),
        ensures
            lists_matching(self@, responder@, KeyExchangeStatus::Initiated, listing_view(r@)),
    {
        self.list_by_responder_and_status(responder, KeyExchangeStatus::Initiated)
    }

    /// Live records that `responder` has answered and that are not complete yet.
    pub fn paired_exchanges(&self, responder: &String) -> (r: Vec<(ExchangeId, KeyExchange)>)
        requires
            self.wf(),
        ensures
            lists_matching(self@, responder@, KeyExchangeStatus::Paired, listing_view(r@)),
    {
        self.list_by_responder_and_status(responder, KeyExchangeStatus::Paired)
    }

    /// Completed records whose responder is `responder`.
    pub fn completed_exchanges(&self, responder: &String) -> (r: Vec<(ExchangeId, KeyExchange)>)
        requires
            self.wf(),
        ensures
            lists_matching(self@, responder@, KeyExchangeStatus::Complete, listing_view(r@)),
    {
        self.list_by_responder_and_status(responder, KeyExchangeStatus::Complete)
    }

    /// Retires every unanswered handshake whose age at wall-clock time `now`
    /// has reached `window` milliseconds (created at or before `now - window`).
    /// Paired and completed records stay, whatever their age. Returns how many
    /// records were retired.
    pub fn sweep_expired_at(&mut self, now: i64, window: i64) -> (r: usize)
        requires
            old(self).wf(),
        ensures
            final(self).wf(),
            final(self)@ == sweep_step(old(self)@, now, window),
            final(self).last_stamp() == old(self).last_stamp(),
            r + final(self)@.dom().len() == old(self)@.dom().len(),
    {
        let ghost m = self.entries@;
        let ghost old_self = *self;
        let cutoff: i128 = now as i128 - window as i128;
        let mut kept: Vec<KeyExchange> = Vec::new();
        let ghost mut nm: ExchangeMap = Map::empty();
        let mut removed: usize = 0;
        let mut i: usize = 0;
        while i < self.records.len()
            invariant
                *self == old_self,
                old_self.wf(),
                m == old_self.entries@,
                cutoff == now - window,
                i <= self.records.len(),
                removed + kept.len() == i,
                nm.dom().finite(),
                nm.dom().len() == kept.len(),
                forall|j: int|
                    0 <= j < kept.len() ==> nm.contains_key(key_of(#[trigger] kept@[j]@)) && nm[key_of(
                        kept@[j]@,
                    )] == kept@[j]@,
                forall|k: PairKey| #[trigger]
                    nm.contains_key(k) ==> exists|j: int| 0 <= j < kept.len() && key_of(kept@[j]@) == k,
                forall|a: int, b: int| 0 <= a < b < kept.len() ==> key_of(kept@[a]@) != key_of(kept@[b]@),
                forall|k: PairKey| #[trigger]
                    nm.contains_key(k) ==> m.contains_key(k) && nm[k] == m[k] && !is_expired(m[k], now, window)
                        && exists|x: int| 0 <= x < i && self.key_at(x) == k,
                forall|x: int|
                    0 <= x < i && !is_expired(self.records@[x]@, now, window) ==> nm.contains_key(
                        #[trigger] self.key_at(x),
                    ),
            decreases self.records.len() - i,
        {
            let ghost k = self.key_at(i as int);
            assert(m.contains_key(k));
            if self.records[i].status == KeyExchangeStatus::Initiated && (self.records[i].created_at as i128)
                <= cutoff {
                removed = removed + 1;
            } else {
                assert(!nm.contains_key(k)) by {
                    if nm.contains_key(k) {
                        let x = choose|x: int| 0 <= x < i && self.key_at(x) == k;
                        assert(self.key_at(x) != self.key_at(i as int));
                    }
                }
                let ghost prev = kept@;
                let ghost pm = nm;
                kept.push(self.records[i].snapshot());
                proof {
                    nm = nm.insert(k, self.records@[i as int]@);
                    assert forall|j: int| 0 <= j < kept.len() implies nm.contains_key(key_of(#[trigger] kept@[j]@))
                        && nm[key_of(kept@[j]@)] == kept@[j]@ by {
                        if j < prev.len() {
                            assert(kept@[j] == prev[j]);
                            assert(pm.contains_key(key_of(prev[j]@)));
                        }
                    }
                    assert forall|q: PairKey| #[trigger] nm.contains_key(q) implies exists|j: int|
                        0 <= j < kept.len() && key_of(kept@[j]@) == q by {
                        if q == k {
                            assert(key_of(kept@[prev.len() as int]@) == q);
                        } else {
                            let j = choose|j: int| 0 <= j < prev.len() && key_of(prev[j]@) == q;
                            assert(kept@[j] == prev[j]);
                        }
                    }
                    assert forall|a: int, b: int| 0 <= a < b < kept.len() implies key_of(kept@[a]@) != key_of(
                        kept@[b]@,
                    ) by {
                        assert(kept@[a] == prev[a]);
                        assert(pm.contains_key(key_of(prev[a]@)));
                        if b < prev.len() {
                            assert(kept@[b] == prev[b]);
                        }
                    }
                    assert forall|q: PairKey| #[trigger] nm.contains_key(q) implies m.contains_key(q) && nm[q] == m[q]
                        && !is_expired(m[q], now, window) && exists|x: int| 0 <= x < i + 1 && self.key_at(x) == q by {
                        if q == k {
                            assert(self.key_at(i as int) == q);
                        } else {
                            assert(pm.contains_key(q));
                        }
                    }
                }
            }
            i += 1;
        }
        proof {
            let target = sweep_step(m, now, window);
            assert forall|k: PairKey| #[trigger] target.contains_key(k) implies nm.contains_key(k) by {
                let x = choose|x: int| 0 <= x < old_self.records.len() && old_self.key_at(x) == k;
                assert(old_self.records@[x]@ == m[k]);
            }
            assert(nm =~= target);
        }
        let ghost kv = kept@;
        self.records = kept;
        self.entries = Ghost(nm);
        proof {
            assert forall|j: int| 0 <= j < self.records.len() implies self.entries@.contains_key(
                #[trigger] self.key_at(j),
            ) && self.entries@[self.key_at(j)] == self.records@[j]@ by {
                assert(self.records@[j] == kv[j]);
            }
            assert forall|k: PairKey| #[trigger] self.entries@.contains_key(k) implies exists|i: int|
                0 <= i < self.records.len() && self.key_at(i) == k by {
                let j = choose|j: int| 0 <= j < kv.len() && key_of(kv[j]@) == k;
                assert(self.key_at(j) == k);
            }
            assert forall|a: int, b: int| 0 <= a < b < self.records.len() implies self.key_at(a) != self.key_at(b) by {
                assert(key_of(kv[a]@) != key_of(kv[b]@));
            }
            assert forall|k: PairKey| #[trigger] self.entries@.contains_key(k) implies record_wf(self.entries@[k])
                && stamped_by(self.entries@[k], self.last_stamp) && key_of(self.entries@[k]) == k by {
                assert(m.contains_key(k));
            }
        }
        removed
    }

    /// Retires the handshakes that have waited for an answer for the expiry
    /// window (24 hours) or longer, as `sweep_expired_at` does at the current
    /// wall-clock time. Returns how many records were retired.
    pub fn cleanup_expired_exchanges(&mut self) -> (r: usize)
        requires
            old(self).wf(),
        ensures
            final(self).wf(),
            final(self).last_stamp() == old(self).last_stamp(),
            exists|now: i64| final(self)@ == #[trigger] sweep_step(old(self)@, now, EXPIRY_WINDOW_MILLIS),
            r + final(self)@.dom().len() == old(self)@.dom().len(),
    {
        let now = wall_clock_millis();
        self.sweep_expired_at(now, EXPIRY_WINDOW_MILLIS)
    }
}

/// The moves a handshake's status may make: forward along
/// Initiated → Paired → Complete, or from Initiated to Expired.
pub open spec fn allowed_move(from: KeyExchangeStatus, to: KeyExchangeStatus) -> bool {
    ||| from == to
    ||| (from == KeyExchangeStatus::Initiated && to == KeyExchangeStatus::Paired)
    ||| (from == KeyExchangeStatus::Paired && to == KeyExchangeStatus::Complete)
    ||| (from == KeyExchangeStatus::Initiated && to == KeyExchangeStatus::Expired)
}

/// `m2` holds for key `j` what `m1` holds: the same record, or none in both.
pub open spec fn same_at(m1: ExchangeMap, m2: ExchangeMap, j: PairKey) -> bool {
    &&& m1.contains_key(j) == m2.contains_key(j)
    &&& m1.contains_key(j) ==> m1[j] == m2[j]
}

/// Answering, completing and sweeping move every status only forward: a
/// record keeps its status or makes an allowed move, and a record a sweep
/// drops was Initiated (it moved to Expired). An answer or a completion that is
/// refused leaves every record as it was.
pub proof fn lemma_transitions_move_forward(
    m: ExchangeMap,
    k: PairKey,
    secret: Seq<char>,
    sig: Seq<char>,
    at: i64,
    now: i64,
    window: i64,
)
    ensures
        pair_step(m, k, secret, sig, at).1 is Err ==> pair_step(m, k, secret, sig, at).0 == m,
        complete_step(m, k, at).1 is Err ==> complete_step(m, k, at).0 == m,
        pair_step(m, k, secret, sig, at).1 is Ok ==> m.contains_key(k) && m[k].status
            == KeyExchangeStatus::Initiated && pair_step(m, k, secret, sig, at).0[k].status
            == KeyExchangeStatus::Paired,
        complete_step(m, k, at).1 is Ok ==> m.contains_key(k) && m[k].status == KeyExchangeStatus::Paired
            && complete_step(m, k, at).0[k].status == KeyExchangeStatus::Complete,
        forall|j: PairKey|
            #[trigger] m.contains_key(j) ==> pair_step(m, k, secret, sig, at).0.contains_key(j)
                && allowed_move(m[j].status, pair_step(m, k, secret, sig, at).0[j].status)
                && complete_step(m, k, at).0.contains_key(j) && allowed_move(
                m[j].status,
                complete_step(m, k, at).0[j].status,
            ),
        forall|j: PairKey| #[trigger]
            m.contains_key(j) ==> if sweep_step(m, now, window).contains_key(j) {
                sweep_step(m, now, window)[j] == m[j]
            } else {
                allowed_move(m[j].status, KeyExchangeStatus::Expired)
            },
{
}

/// Opening a handshake again is refused with `Conflict` once the first one
/// has completed, and replaces the first one while it is still waiting for
/// an answer.
pub proof fn lemma_conflict_guard(
    m: ExchangeMap,
    k: PairKey,
    kx1: Seq<char>,
    sig1: Seq<char>,
    t1: i64,
    secret: Seq<char>,
    responder_sig: Seq<char>,
    t2: i64,
    t3: i64,
    kx2: Seq<char>,
    sig2: Seq<char>,
    t4: i64,
)
    requires
        init_step(m, k, kx1, sig1, t1).1 is Ok,
    ensures
        ({
            let m1 = init_step(m, k, kx1, sig1, t1).0;
            init_step(m1, k, kx2, sig2, t4) == (
                m1.insert(k, initiated(k, kx2, sig2, t4)),
                Ok::<KeyExchangeView, ExchangeError>(initiated(k, kx2, sig2, t4)),
            )
        }),
        ({
            let m1 = init_step(m, k, kx1, sig1, t1).0;
            let m2 = pair_step(m1, k, secret, responder_sig, t2).0;
            let m3 = complete_step(m2, k, t3).0;
            init_step(m3, k, kx2, sig2, t4) == (m3, Err::<KeyExchangeView, ExchangeError>(
                ExchangeError::Conflict,
            ))
        }),
{
}

/// The pair key is ordered: opening, answering or completing the handshake
/// from `a` to `b` leaves the handshake from `b` to `a` as it was.
pub proof fn lemma_pair_key_is_ordered(
    m: ExchangeMap,
    a: Seq<char>,
    b: Seq<char>,
    kx: Seq<char>,
    sig: Seq<char>,
    secret: Seq<char>,
    responder_sig: Seq<char>,
    at: i64,
)
    requires
        a != b,
    ensures
        same_at(m, init_step(m, (a, b), kx, sig, at).0, (b, a)),
        same_at(m, pair_step(m, (a, b), secret, responder_sig, at).0, (b, a)),
        same_at(m, complete_step(m, (a, b), at).0, (b, a)),
{
}

/// Of two answers to the same waiting handshake, the first succeeds and the
/// second is refused with `InvalidState(Initiated)` and changes nothing.
pub proof fn lemma_second_pair_refused(
    m: ExchangeMap,
    k: PairKey,
    secret1: Seq<char>,
    sig1: Seq<char>,
    t1: i64,
    secret2: Seq<char>,
    sig2: Seq<char>,
    t2: i64,
)
    requires
        m.contains_key(k),
        m[k].status == KeyExchangeStatus::Initiated,
    ensures
        pair_step(m, k, secret1, sig1, t1).1 is Ok,
        pair_step(m, k, secret1, sig1, t1).0[k].status == KeyExchangeStatus::Paired,
        ({
            let m1 = pair_step(m, k, secret1, sig1, t1).0;
            pair_step(m1, k, secret2, sig2, t2) == (m1, Err::<KeyExchangeView, ExchangeError>(
                ExchangeError::InvalidState(KeyExchangeStatus::Initiated),
            ))
        }),
{
}

/// A waiting handshake created exactly `window` before `now` is swept; one
/// created later is kept; a paired or completed one is kept whatever its age.
pub proof fn lemma_expiry_boundary(m: ExchangeMap, k: PairKey, now: i64, window: i64)
    requires
        m.contains_key(k),
    ensures
        m[k].status == KeyExchangeStatus::Initiated && m[k].created_at == now - window ==> !sweep_step(
            m,
            now,
            window,
        ).contains_key(k),
        m[k].status == KeyExchangeStatus::Initiated && m[k].created_at > now - window ==> sweep_step(
            m,
            now,
            window,
        ).contains_key(k) && sweep_step(m, now, window)[k] == m[k],
        m[k].status == KeyExchangeStatus::Paired || m[k].status == KeyExchangeStatus::Complete
            ==> sweep_step(m, now, window).contains_key(k) && sweep_step(m, now, window)[k] == m[k],
{
}

} // verus!
