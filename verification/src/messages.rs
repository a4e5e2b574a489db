//! References to agent messages, and the map from a recipient to the
//! messages addressed to it.

use vstd::prelude::*;

verus! {

/// Where a message lies: its batch, its agent within the batch, and its
/// position among the agent's messages.
#[derive(Clone, Copy, Debug, PartialEq, Eq, Structural)]
pub struct AgentMessageReference {
    pub batch_index: usize,
    pub agent_index: usize,
    pub message_index: usize,
}

impl AgentMessageReference {
    /// The reference with the given coordinates.
    pub fn new(batch_index: usize, agent_index: usize, message_index: usize) -> (r:
        AgentMessageReference)
        ensures
            r.batch_index == batch_index,
            r.agent_index == agent_index,
            r.message_index == message_index,
    {
        AgentMessageReference { batch_index, agent_index, message_index }
    }
}

/// A message as the pool hands it out: its recipients and where it lies.
pub struct Addressed {
    pub recipients: Vec<String>,
    pub reference: AgentMessageReference,
}

/// The view of an [`Addressed`].
pub struct AddressedView {
    pub recipients: Seq<Seq<char>>,
    pub reference: AgentMessageReference,
}

impl View for Addressed {
    type V = AddressedView;

    open spec fn view(&self) -> AddressedView {
        AddressedView {
            recipients: self.recipients@.map_values(|s: String| s@),
            reference: self.reference,
        }
    }
}

/// The views of a list of messages, in order.
pub open spec fn addressed_of(messages: Seq<Addressed>) -> Seq<AddressedView> {
    messages.map_values(|m: Addressed| m@)
}

/// `reference`, once for each time `name` occurs among `recipients`.
pub open spec fn copies(recipients: Seq<Seq<char>>, name: Seq<char>, reference: AgentMessageReference) -> Seq<
    AgentMessageReference,
>
    decreases recipients.len(),
{
    if recipients.len() == 0 {
        Seq::empty()
    } else {
        let front = copies(recipients.drop_last(), name, reference);
        if recipients.last() == name {
            front.push(reference)
        } else {
            front
        }
    }
}

/// The references of the messages addressed to `name`, in the order of the
/// messages. A message that names a recipient twice is referred to twice.
pub open spec fn addressed_to(messages: Seq<AddressedView>, name: Seq<char>) -> Seq<
    AgentMessageReference,
>
    decreases messages.len(),
{
    if messages.len() == 0 {
        Seq::empty()
    } else {
        addressed_to(messages.drop_last(), name) + copies(
            messages.last().recipients,
            name,
            messages.last().reference,
        )
    }
}

/// A mapping from recipient to message references.
pub struct MessageMap {
    inner: Vec<(String, Vec<AgentMessageReference>)>,
}

impl MessageMap {
    /// The references held for a recipient; none for one that is unknown.
    pub closed spec fn refs(&self, name: Seq<char>) -> Seq<AgentMessageReference> {
        if exists|i: int| 0 <= i < self.inner@.len() && (#[trigger] self.inner@[i]).0@ == name {
            let i = choose|i: int| 0 <= i < self.inner@.len() && (#[trigger] self.inner@[i]).0@ == name;
            self.inner@[i].1@
        } else {
            Seq::empty()
        }
    }

    /// The representation holds each recipient once.
    pub closed spec fn wf(&self) -> bool {
        forall|i: int, j: int|
            0 <= i < j < self.inner@.len() ==> (#[trigger] self.inner@[i]).0@ != (
            #[trigger] self.inner@[j]).0@
    }

    fn position(&self, name: &String) -> (r: Option<usize>)
        requires
            self.wf(),
        ensures
            r is None ==> self.refs(name@) == Seq::<AgentMessageReference>::empty(),
            r is None ==> forall|i: int|
                0 <= i < self.inner@.len() ==> (#[trigger] self.inner@[i]).0@ != name@,
            r matches Some(i) ==> i < self.inner@.len() && self.inner@[i as int].0@ == name@
                && self.refs(name@) == self.inner@[i as int].1@,
    {
        let mut i: usize = 0;
        while i < self.inner.len()
            invariant
                self.wf(),
                i <= self.inner.len(),
                forall|j: int| 0 <= j < i ==> (#[trigger] self.inner@[j]).0@ != name@,
            decreases self.inner.len() - i,
        {
            if self.inner[i].0 == *name {
                proof {
                    let k = choose|k: int|
                        0 <= k < self.inner@.len() && (#[trigger] self.inner@[k]).0@ == name@;
                    if k < i {
                        assert(self.inner@[k].0@ != self.inner@[i as int].0@);
                    } else if k > i {
                        assert(self.inner@[i as int].0@ != self.inner@[k].0@);
                    }
                }
                return Some(i);
            }
            i += 1;
        }
        None
    }

    fn add(&mut self, name: &String, reference: AgentMessageReference)
        requires
            old(self).wf(),
        ensures
            final(self).wf(),
            final(self).refs(name@) == old(self).refs(name@).push(reference),
            forall|other: Seq<char>|
                other != name@ ==> #[trigger] final(self).refs(other) == old(self).refs(other),
    {
        match self.position(name) {
            Some(i) => {
                let ghost before = self.inner@;
                let (stored, mut list) = self.inner.remove(i);
                list.push(reference);
                self.inner.insert(i, (stored, list));
                proof {
                    let after = self.inner@;
                    assert(after.len() == before.len());
                    assert forall|j: int| 0 <= j < after.len() implies (#[trigger] after[j]).0@
                        == before[j].0@ && (j != i ==> after[j].1@ == before[j].1@) by {
                        if j < i {
                            assert(before.remove(i as int)[j] == before[j]);
                        } else if j > i {
                            assert(before.remove(i as int)[j - 1] == before[j]);
                        }
                    }
                    assert(after[i as int].1@ == before[i as int].1@.push(reference));
                    assert(self.wf()) by {
                        assert forall|a: int, b: int| 0 <= a < b < after.len() implies (
                        #[trigger] after[a]).0@ != (#[trigger] after[b]).0@ by {
                            assert(before[a].0@ != before[b].0@);
                        }
                    }
                    lemma_refs(self, name@, i as int);
                    assert forall|other: Seq<char>| other != name@ implies #[trigger] self.refs(
                        other,
                    ) == old(self).refs(other) by {
                        if exists|k: int|
                            0 <= k < before.len() && (#[trigger] before[k]).0@ == other {
                            let k = choose|k: int|
                                0 <= k < before.len() && (#[trigger] before[k]).0@ == other;
                            assert(after[k].0@ == other);
                            lemma_refs(self, other, k);
                            lemma_refs(old(self), other, k);
                        } else {
                            if exists|k: int|
                                0 <= k < after.len() && (#[trigger] after[k]).0@ == other {
                                let k = choose|k: int|
                                    0 <= k < after.len() && (#[trigger] after[k]).0@ == other;
                                assert(before[k].0@ == other);
                            }
                        }
                    }
                }
            },
            None => {
                let ghost before = self.inner@;
                let mut list: Vec<AgentMessageReference> = Vec::new();
                list.push(reference);
                let stored = name.clone();
                self.inner.push((stored, list));
                proof {
                    let after = self.inner@;
                    let last = before.len() as int;
                    assert(after[last].0@ == name@);
                    assert(self.wf()) by {
                        assert forall|a: int, b: int| 0 <= a < b < after.len() implies (
                        #[trigger] after[a]).0@ != (#[trigger] after[b]).0@ by {
                            assert(after[a] == before[a]);
                            if b < last {
                                assert(after[b] == before[b]);
                            }
                        }
                    }
                    lemma_refs(self, name@, last);
                    assert(after[last].1@ =~= Seq::<AgentMessageReference>::empty().push(reference));
                    assert forall|other: Seq<char>| other != name@ implies #[trigger] self.refs(
                        other,
                    ) == old(self).refs(other) by {
                        if exists|k: int|
                            0 <= k < before.len() && (#[trigger] before[k]).0@ == other {
                            let k = choose|k: int|
                                0 <= k < before.len() && (#[trigger] before[k]).0@ == other;
                            assert(after[k] == before[k]);
                            lemma_refs(self, other, k);
                            lemma_refs(old(self), other, k);
                        } else {
                            if exists|k: int|
                                0 <= k < after.len() && (#[trigger] after[k]).0@ == other {
                                let k = choose|k: int|
                                    0 <= k < after.len() && (#[trigger] after[k]).0@ == other;
                                assert(after[k] == before[k]);
                            }
                        }
                    }
                }
            },
        }
    }

    /// The map of the messages of a pool: for each recipient the references
    /// of the messages addressed to it, in the order of the messages.
    pub fn new(messages: &Vec<Addressed>) -> (r: MessageMap)
        ensures
            r.wf(),
            forall|name: Seq<char>| #[trigger]
                r.refs(name) == addressed_to(addressed_of(messages@), name),
    {
        let mut map = MessageMap { inner: Vec::new() };
        let ghost all = addressed_of(messages@);
        let mut i: usize = 0;
        assert(all.take(0) =~= Seq::<AddressedView>::empty());
        while i < messages.len()
            invariant
                i <= messages.len(),
                all == addressed_of(messages@),
                map.wf(),
                forall|name: Seq<char>| #[trigger]
                    map.refs(name) == addressed_to(all.take(i as int), name),
            decreases messages.len() - i,
        {
            let message = &messages[i];
            let ghost recipients = message@.recipients;
            let ghost start = map;
            let mut j: usize = 0;
            assert(recipients.take(0) =~= Seq::<Seq<char>>::empty());
            assert forall|name: Seq<char>| #[trigger]
                map.refs(name) == start.refs(name) + copies(
                    recipients.take(0),
                    name,
                    message.reference,
                ) by {}
            while j < message.recipients.len()
                invariant
                    j <= message.recipients.len(),
                    recipients == message@.recipients,
                    map.wf(),
                    forall|name: Seq<char>| #[trigger]
                        map.refs(name) == start.refs(name) + copies(
                            recipients.take(j as int),
                            name,
                            message.reference,
                        ),
                decreases message.recipients.len() - j,
            {
                let ghost prior = map;
                proof {
                    assert(recipients.take(j as int + 1).drop_last() =~= recipients.take(j as int));
                    assert(recipients.take(j as int + 1).last() == message.recipients@[j as int]@);
                }
                map.add(&message.recipients[j], message.reference);
                proof {
                    let here = message.recipients@[j as int]@;
                    assert forall|name: Seq<char>| #[trigger]
                        map.refs(name) == start.refs(name) + copies(
                            recipients.take(j as int + 1),
                            name,
                            message.reference,
                        ) by {
                        if name == here {
                            assert(map.refs(name) == prior.refs(name).push(message.reference));
                            assert(prior.refs(name).push(message.reference) =~= start.refs(name)
                                + copies(recipients.take(j as int), name, message.reference).push(
                                message.reference,
                            ));
                        } else {
                            assert(map.refs(name) == prior.refs(name));
                        }
                    }
                }
                j += 1;
            }
            proof {
                assert(recipients.take(j as int) =~= recipients);
                assert(all.take(i as int + 1).drop_last() =~= all.take(i as int));
                assert(all.take(i as int + 1).last() == message@);
            }
            i += 1;
        }
        assert(all.take(i as int) =~= all);
        map
    }

    /// The references of the messages addressed to a recipient.
    pub fn get_msg_refs(&self, recipient: &str) -> (r: &[AgentMessageReference])
        requires
            self.wf(),
        ensures
            r@ == self.refs(recipient@),
    {
        let name = recipient.to_owned();
        match self.position(&name) {
            Some(i) => self.inner[i].1.as_slice(),
            None => &[],
        }
    }
}

/// The references held for a recipient are those of its entry.
proof fn lemma_refs(map: &MessageMap, name: Seq<char>, i: int)
    requires
        map.wf(),
        0 <= i < map.inner@.len(),
        map.inner@[i].0@ == name,
    ensures
        map.refs(name) == map.inner@[i].1@,
{
    let k = choose|k: int| 0 <= k < map.inner@.len() && (#[trigger] map.inner@[k]).0@ == name;
    if k < i {
        assert(map.inner@[k].0@ != map.inner@[i].0@);
    } else if k > i {
        assert(map.inner@[i].0@ != map.inner@[k].0@);
    }
}

} // verus!
