//! Append-only mailboxes of opaque ciphertexts, one per recipient.
//!
//! The store keeps one log of every accepted message in order of acceptance;
//! a recipient's mailbox is the part of the log addressed to that recipient.
use vstd::prelude::*;

use crate::clock::{next_stamp, stamp, wall_clock_millis};

verus! {

/// A message as accepted by the relay; `timestamp` is the relay's own time of
/// acceptance, in milliseconds since the Unix epoch.
#[derive(Clone, Debug)]
pub struct Message {
    pub from_pubkey: String,
    pub to_pubkey: String,
    pub ciphertext: String,
    pub timestamp: i64,
}

/// The mathematical content of a `Message`.
pub struct MessageView {
    pub from: Seq<char>,
    pub to: Seq<char>,
    pub ciphertext: Seq<char>,
    pub timestamp: i64,
}

impl View for Message {
    type V = MessageView;

    open spec fn view(&self) -> MessageView {
        MessageView {
            from: self.from_pubkey@,
            to: self.to_pubkey@,
            ciphertext: self.ciphertext@,
            timestamp: self.timestamp,
        }
    }
}

pub open spec fn messages_view(v: Seq<Message>) -> Seq<MessageView> {
    v.map_values(|m: Message| m@)
}

/// The messages of `log` addressed to `recipient`, in the order of `log`.
pub open spec fn mailbox_of(log: Seq<MessageView>, recipient: Seq<char>) -> Seq<MessageView>
    decreases log.len(),
{
    if log.len() == 0 {
        Seq::empty()
    } else if log.last().to == recipient {
        mailbox_of(log.drop_last(), recipient).push(log.last())
    } else {
        mailbox_of(log.drop_last(), recipient)
    }
}

impl Message {
    /// A copy of this message.
    pub fn snapshot(&self) -> (r: Message)
        ensures
            r@ == self@,
    {
        Message {
            from_pubkey: self.from_pubkey.clone(),
            to_pubkey: self.to_pubkey.clone(),
            ciphertext: self.ciphertext.clone(),
            timestamp: self.timestamp,
        }
    }
}

/// Every accepted message, in order of acceptance.
pub struct MessageStore {
    log: Vec<Message>,
    last_stamp: i64,
}

impl View for MessageStore {
    type V = Seq<MessageView>;

    closed spec fn view(&self) -> Seq<MessageView> {
        messages_view(self.log@)
    }
}

impl MessageStore {
    /// The last timestamp this store issued.
    pub closed spec fn last_stamp(&self) -> i64 {
        self.last_stamp
    }

    /// Timestamps never decrease along the log, and none is later than the
    /// last one issued.
    pub closed spec fn wf(&self) -> bool {
        &&& forall|i: int, j: int|
            0 <= i < j < self.log.len() ==> self.log@[i].timestamp <= self.log@[j].timestamp
        &&& forall|i: int| 0 <= i < self.log.len() ==> self.log@[i].timestamp <= self.last_stamp
    }

    /// Along the log, and so along every mailbox, timestamps never decrease.
    pub proof fn lemma_timestamps_ordered(&self)
        requires
            self.wf(),
        ensures
            forall|i: int, j: int| 0 <= i < j < self@.len() ==> self@[i].timestamp <= self@[j].timestamp,
            forall|i: int| 0 <= i < self@.len() ==> self@[i].timestamp <= self.last_stamp(),
    {
    }

    /// An empty store.
    pub fn new() -> (r: MessageStore)
        ensures
            r.wf(),
            r@ == Seq::<MessageView>::empty(),
            r.last_stamp() == i64::MIN,
    {
        let r = MessageStore { log: Vec::new(), last_stamp: i64::MIN };
        assert(r@ =~= Seq::<MessageView>::empty());
        r
    }

    /// Accepts a message from `from` to `to` at wall-clock time `now` and
    /// appends it to the recipient's mailbox. Returns the stored message.
    pub fn store_message_at(&mut self, from: String, to: String, ciphertext: String, now: i64) -> (r:
        Message)
        requires
            old(self).wf(),
        ensures
            final(self).wf(),
            r@ == (MessageView {
                from: from@,
                to: to@,
                ciphertext: ciphertext@,
                timestamp: next_stamp(old(self).last_stamp(), now),
            }),
            final(self)@ == old(self)@.push(r@),
            final(self).last_stamp() == next_stamp(old(self).last_stamp(), now),
    {
        let at = stamp(self.last_stamp, now);
        let m = Message { from_pubkey: from, to_pubkey: to, ciphertext, timestamp: at };
        let out = m.snapshot();
        let ghost prev = self.log@;
        self.log.push(m);
        self.last_stamp = at;
        assert(messages_view(self.log@) =~= messages_view(prev).push(out@));
        out
    }

    /// Accepts a message as `store_message_at` does, stamped with the current
    /// wall-clock time.
    pub fn store_message(&mut self, from: String, to: String, ciphertext: String) -> (r: Message)
        requires
            old(self).wf(),
        ensures
            final(self).wf(),
            r@.from == from@,
            r@.to == to@,
            r@.ciphertext == ciphertext@,
            r@.timestamp >= old(self).last_stamp(),
            final(self)@ == old(self)@.push(r@),
            final(self).last_stamp() == r@.timestamp,
    {
        let now = wall_clock_millis();
        self.store_message_at(from, to, ciphertext, now)
    }

    /// Copies of the messages addressed to `recipient`, in the order they were
    /// accepted; empty for a recipient that never received one.
    pub fn get_messages(&self, recipient: &String) -> (r: Vec<Message>)
        ensures
            messages_view(r@) == mailbox_of(self@, recipient@),
    {
        let mut out: Vec<Message> = Vec::new();
        let mut i: usize = 0;
        while i < self.log.len()
            invariant
                i <= self.log.len(),
                messages_view(out@) == mailbox_of(self@.take(i as int), recipient@),
            decreases self.log.len() - i,
        {
            let ghost prev = out@;
            proof {
                assert(self@.take(i + 1).drop_last() =~= self@.take(i as int));
                assert(self@.take(i + 1).last() == self.log@[i as int]@);
            }
            if self.log[i].to_pubkey == *recipient {
                out.push(self.log[i].snapshot());
                assert(messages_view(out@) =~= messages_view(prev).push(self.log@[i as int]@));
            }
            i += 1;
        }
        assert(self@.take(self.log.len() as int) =~= self@);
        out
    }
}

/// Storing a message appends it to its recipient's mailbox and leaves every
/// other mailbox as it was.
pub proof fn lemma_store_appends_to_recipient_only(log: Seq<MessageView>, m: MessageView, r: Seq<char>)
    ensures
        mailbox_of(log.push(m), r) == if m.to == r {
            mailbox_of(log, r).push(m)
        } else {
            mailbox_of(log, r)
        },
{
    assert(log.push(m).drop_last() =~= log);
}

/// Messages stored one after another for `r` are fetched after what `r` had,
/// in the order they were stored; messages stored for others never appear in
/// `r`'s mailbox.
pub proof fn lemma_mailbox_order_and_isolation(log: Seq<MessageView>, ms: Seq<MessageView>, r: Seq<char>)
    ensures
        (forall|i: int| 0 <= i < ms.len() ==> (#[trigger] ms[i]).to == r) ==> mailbox_of(log + ms, r)
            == mailbox_of(log, r) + ms,
        (forall|i: int| 0 <= i < ms.len() ==> (#[trigger] ms[i]).to != r) ==> mailbox_of(log + ms, r)
            == mailbox_of(log, r),
    decreases ms.len(),
{
    if ms.len() > 0 {
        let init = ms.drop_last();
        lemma_mailbox_order_and_isolation(log, init, r);
        assert((log + ms).drop_last() =~= log + init);
        assert((log + ms).last() == ms.last());
        if forall|i: int| 0 <= i < ms.len() ==> (#[trigger] ms[i]).to == r {
            assert(forall|i: int| 0 <= i < init.len() ==> (#[trigger] init[i]).to == r) by {
                assert forall|i: int| 0 <= i < init.len() implies (#[trigger] init[i]).to == r by {
                    assert(init[i] == ms[i]);
                }
            }
            assert(mailbox_of(log, r) + ms =~= (mailbox_of(log, r) + init).push(ms.last()));
        }
        if forall|i: int| 0 <= i < ms.len() ==> (#[trigger] ms[i]).to != r {
            assert(forall|i: int| 0 <= i < init.len() ==> (#[trigger] init[i]).to != r) by {
                assert forall|i: int| 0 <= i < init.len() implies (#[trigger] init[i]).to != r by {
                    assert(init[i] == ms[i]);
                }
            }
        }
    } else {
        assert(log + ms =~= log);
        assert(mailbox_of(log, r) + ms =~= mailbox_of(log, r));
    }
}

/// A recipient that no stored message is addressed to has an empty mailbox.
pub proof fn lemma_unknown_recipient_is_empty(log: Seq<MessageView>, r: Seq<char>)
    requires
        forall|i: int| 0 <= i < log.len() ==> (#[trigger] log[i]).to != r,
    ensures
        mailbox_of(log, r) == Seq::<MessageView>::empty(),
    decreases log.len(),
{
    if log.len() > 0 {
        let init = log.drop_last();
        assert forall|i: int| 0 <= i < init.len() implies (#[trigger] init[i]).to != r by {
            assert(init[i] == log[i]);
        }
        lemma_unknown_recipient_is_empty(init, r);
    }
}

} // verus!
