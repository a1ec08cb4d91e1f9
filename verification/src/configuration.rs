//! Cluster membership and the commands that change it.
//!
//! A command whose first byte is [`CONFIGURATION_TAG`] and whose remaining
//! bytes are a whole number of 8-byte little-endian node identifiers is a
//! configuration change: it replaces the membership by the nodes it lists.
//! Every other byte string is an ordinary command of the application.

use vstd::prelude::*;
use vstd::bytes::spec_u64_from_le_bytes;
use vstd::bytes::spec_u64_to_le_bytes;
use vstd::bytes::lemma_auto_spec_u64_to_from_le_bytes;
use vstd::bytes::u64_from_le_bytes;
use vstd::bytes::u64_to_le_bytes;
use vstd::slice::slice_subrange;
use crate::clock::Index;
use crate::clock::NodeId;

verus! {

/// The first byte of every configuration change.
pub const CONFIGURATION_TAG: u8 = 0xC5;

/// The node identifiers that `bytes` hold, 8 bytes each, little-endian.
pub open spec fn decode_nodes(bytes: Seq<u8>) -> Seq<u64> {
    Seq::new(
        (bytes.len() / 8) as nat,
        |i: int| spec_u64_from_le_bytes(bytes.subrange(8 * i, 8 * i + 8)),
    )
}

/// The bytes that hold `nodes`, 8 bytes each, little-endian.
pub open spec fn encode_nodes(nodes: Seq<u64>) -> Seq<u8>
    decreases nodes.len(),
{
    if nodes.len() == 0 {
        Seq::empty()
    } else {
        encode_nodes(nodes.drop_last()) + spec_u64_to_le_bytes(nodes.last())
    }
}

/// The membership that `command` installs, if it is a configuration change.
pub open spec fn membership_of(command: Seq<u8>) -> Option<Seq<u64>> {
    if command.len() >= 1 && command[0] == CONFIGURATION_TAG && (command.len() - 1) % 8 == 0 {
        Some(decode_nodes(command.subrange(1, command.len() as int)))
    } else {
        None
    }
}

/// The configuration change that installs `membership`.
pub open spec fn configuration_bytes(membership: Seq<u64>) -> Seq<u8> {
    seq![CONFIGURATION_TAG] + encode_nodes(membership)
}

/// Encoding takes 8 bytes for each node, and decoding gives the nodes back.
pub proof fn lemma_encode_nodes(nodes: Seq<u64>)
    ensures
        encode_nodes(nodes).len() == 8 * nodes.len(),
        decode_nodes(encode_nodes(nodes)) == nodes,
    decreases nodes.len(),
{
    lemma_auto_spec_u64_to_from_le_bytes();
    if nodes.len() == 0 {
        assert(decode_nodes(encode_nodes(nodes)) =~= nodes);
    } else {
        let shorter = nodes.drop_last();
        lemma_encode_nodes(shorter);
        let bytes = encode_nodes(nodes);
        let head = encode_nodes(shorter);
        let tail = spec_u64_to_le_bytes(nodes.last());
        assert(bytes == head + tail);
        assert forall|i: int| 0 <= i < nodes.len() implies decode_nodes(bytes)[i] == nodes[i] by {
            if i < shorter.len() {
                assert(bytes.subrange(8 * i, 8 * i + 8) =~= head.subrange(8 * i, 8 * i + 8));
                assert(decode_nodes(head)[i] == shorter[i]);
            } else {
                assert(bytes.subrange(8 * i, 8 * i + 8) =~= tail);
            }
        }
        assert(decode_nodes(bytes) =~= nodes);
    }
}

/// A configuration change is read back as the membership it was written
/// for.
pub proof fn lemma_configuration_round_trip(membership: Seq<u64>)
    ensures
        membership_of(configuration_bytes(membership)) == Some(membership),
{
    lemma_encode_nodes(membership);
    let command = configuration_bytes(membership);
    assert(command.subrange(1, command.len() as int) =~= encode_nodes(membership));
}

/// A command that does not start with the tag is an ordinary command.
pub proof fn lemma_untagged_is_ordinary(command: Seq<u8>)
    requires
        command.len() == 0 || command[0] != CONFIGURATION_TAG,
    ensures
        membership_of(command) is None,
{
}

/// Reads `command` as a configuration change.
pub fn parse_configuration_command(command: &Vec<u8>) -> (membership: Option<Vec<NodeId>>)
    ensures
        match membership {
            Some(nodes) => membership_of(command@) == Some(nodes@),
            None => membership_of(command@) is None,
        },
{
    let len = command.len();
    if len == 0 || command[0] != CONFIGURATION_TAG || (len - 1) % 8 != 0 {
        return None;
    }
    let count = (len - 1) / 8;
    let ghost body = command@.subrange(1, len as int);
    let mut nodes: Vec<NodeId> = Vec::new();
    let mut i: usize = 0;
    while i < count
        invariant
            len == command.len(),
            count == (len - 1) / 8,
            (len - 1) % 8 == 0,
            body == command@.subrange(1, len as int),
            0 <= i <= count,
            nodes.len() == i,
            forall|j: int| 0 <= j < i ==> nodes[j] == decode_nodes(body)[j],
        decreases count - i,
    {
        let start = 1 + 8 * i;
        let chunk = slice_subrange(command.as_slice(), start, start + 8);
        assert(chunk@ =~= body.subrange(8 * i, 8 * i + 8));
        let node = u64_from_le_bytes(chunk);
        nodes.push(node);
        i = i + 1;
    }
    assert(nodes@ =~= decode_nodes(body));
    Some(nodes)
}

/// Writes the configuration change that installs `membership`.
pub fn configuration_command(membership: &Vec<NodeId>) -> (command: Vec<u8>)
    ensures
        command@ == configuration_bytes(membership@),
        membership_of(command@) == Some(membership@),
{
    let mut command: Vec<u8> = Vec::new();
    command.push(CONFIGURATION_TAG);
    let mut i: usize = 0;
    while i < membership.len()
        invariant
            0 <= i <= membership.len(),
            command@ == seq![CONFIGURATION_TAG] + encode_nodes(membership@.take(i as int)),
        decreases membership.len() - i,
    {
        let mut bytes = u64_to_le_bytes(membership[i]);
        command.append(&mut bytes);
        proof {
            let grown = membership@.take(i + 1);
            assert(grown.drop_last() =~= membership@.take(i as int));
            assert(command@ =~= seq![CONFIGURATION_TAG] + encode_nodes(grown));
        }
        i = i + 1;
    }
    proof {
        assert(membership@.take(membership.len() as int) =~= membership@);
        lemma_configuration_round_trip(membership@);
    }
    command
}

/// The membership of the cluster as this node sees it.
#[derive(Debug)]
pub struct Configuration {
    membership: Vec<NodeId>,
    index: Index,
}

/// The mathematical value of a [`Configuration`].
pub struct ConfigurationView {
    /// The nodes of the cluster.
    pub membership: Seq<u64>,
    /// The index of the entry that installed them; 0 before any did.
    pub index: int,
}

impl View for Configuration {
    type V = ConfigurationView;

    closed spec fn view(&self) -> ConfigurationView {
        ConfigurationView { membership: self.membership@, index: self.index as int }
    }
}

impl ConfigurationView {
    /// The configuration after `command`, the command of the entry at
    /// `index`, was looked at: replaced if the command is a configuration
    /// change, unchanged otherwise.
    pub open spec fn process(self, command: Seq<u8>, index: int) -> ConfigurationView {
        match membership_of(command) {
            Some(membership) => ConfigurationView { membership, index },
            None => self,
        }
    }
}

impl Configuration {
    /// A cluster without members.
    pub fn new() -> (configuration: Configuration)
        ensures
            configuration@ == (ConfigurationView { membership: Seq::empty(), index: 0 }),
    {
        Configuration { membership: Vec::new(), index: 0 }
    }

    /// Installs `membership`, as the entry at `index` asks.
    pub fn set_membership(&mut self, membership: Vec<NodeId>, index: Index)
        ensures
            final(self)@ == (ConfigurationView { membership: membership@, index: index as int }),
    {
        self.membership = membership;
        self.index = index;
    }

    /// The nodes of the cluster.
    pub fn membership(&self) -> (nodes: &Vec<NodeId>)
        ensures
            nodes@ == self@.membership,
    {
        &self.membership
    }

    /// The index of the entry that installed the membership.
    pub fn index(&self) -> (index: Index)
        ensures
            index == self@.index,
    {
        self.index
    }
}

} // verus!
