//! The commands of the read-only bus probe: identify the bus, then, for
//! each address from `0` to `9`, acknowledge and read continuous
//! measurement 0. None of them changes a sensor's address.

use vstd::prelude::*;

verus! {

/// The SDI-12 command that asks any sensor on the bus for its address.
pub open spec fn address_query() -> Seq<u8> {
    seq![63u8, 33u8]
}

/// The acknowledge command for `address`.
pub open spec fn acknowledge(address: u8) -> Seq<u8> {
    seq![address, 33u8]
}

/// The command that reads continuous measurement 0 of `address`.
pub open spec fn continuous_read(address: u8) -> Seq<u8> {
    seq![address, 82u8, 48u8, 33u8]
}

/// The commands of the probe, in the order they are sent.
pub open spec fn probe_commands_spec() -> Seq<Seq<u8>> {
    seq![address_query()] + Seq::new(
        20,
        |i: int|
            if i % 2 == 0 {
                acknowledge((48 + i / 2) as u8)
            } else {
                continuous_read((48 + i / 2) as u8)
            },
    )
}

/// Whether `cmd` asks a sensor to change its address (`aAb!`).
pub open spec fn is_address_change(cmd: Seq<u8>) -> bool {
    cmd.len() >= 2 && cmd[1] == 65u8
}

/// The commands of the read-only probe.
pub fn probe_commands() -> (cmds: Vec<Vec<u8>>)
    ensures
        cmds@.len() == probe_commands_spec().len(),
        forall|i: int| 0 <= i < cmds@.len() ==> #[trigger] cmds@[i]@ == probe_commands_spec()[i],
{
    let mut cmds: Vec<Vec<u8>> = Vec::new();
    let first = vec![63u8, 33u8];
    assert(first@ =~= address_query());
    cmds.push(first);
    let mut address: u8 = 48;
    while address <= 57
        invariant
            48 <= address <= 58,
            cmds@.len() == 1 + 2 * (address - 48),
            forall|i: int| 0 <= i < cmds@.len() ==> #[trigger] cmds@[i]@ == probe_commands_spec()[i],
        decreases 58 - address,
    {
        let ack = vec![address, 33u8];
        assert(ack@ =~= acknowledge(address));
        let read = vec![address, 82u8, 48u8, 33u8];
        assert(read@ =~= continuous_read(address));
        let k = cmds.len();
        cmds.push(ack);
        cmds.push(read);
        assert(probe_commands_spec()[k as int] == acknowledge(address));
        assert(probe_commands_spec()[k + 1] == continuous_read(address));
        address = address + 1;
    }
    cmds
}

/// The probe only reads: none of its commands changes an address.
pub proof fn lemma_probe_is_read_only()
    ensures
        forall|i: int|
            0 <= i < probe_commands_spec().len() ==> !is_address_change(
                #[trigger] probe_commands_spec()[i],
            ),
{
    assert forall|i: int| 0 <= i < probe_commands_spec().len() implies !is_address_change(
        #[trigger] probe_commands_spec()[i],
    ) by {
        if i > 0 {
            let c = probe_commands_spec()[i];
            assert(c[1] == 33u8 || c[1] == 82u8);
        }
    }
}

} // verus!
