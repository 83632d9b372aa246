//! The ways of the pairing service, from one end to the other.
use crate::connecting::{
    advanced, after_bytes, after_done, after_group, after_paths, after_properties, after_saved,
    after_text, Advance, ConnectingModel, NoticeModel, Phase, ReplyModel, TaskModel,
};
use crate::credentials;
use crate::helper;
use crate::helper::{GroupInfo, HelperError, Operation};
use crate::network;
use vstd::prelude::*;

verus! {

/// Whether a step leads to a task.
pub open spec fn leads_to(step: Advance, task: TaskModel) -> bool {
    step.result == Ok::<TaskModel, HelperError>(task)
}

/// Whether a step ends the way.
pub open spec fn ends_with(step: Advance, error: HelperError) -> bool {
    step.result == Err::<TaskModel, HelperError>(error)
}

/// Each kind of reply is taken by what it holds.
pub proof fn law_replies_are_taken_by_their_kind(
    s: ConnectingModel,
    paths: Seq<Seq<char>>,
    value: Option<Seq<char>>,
    bytes: Seq<u8>,
    props: Map<Seq<char>, Seq<char>>,
    saved: Option<Map<Seq<char>, Seq<char>>>,
    info: GroupInfo,
)
    ensures
        advanced(s, ReplyModel::Paths(paths)) == after_paths(s, paths),
        advanced(s, ReplyModel::Text(value)) == after_text(s, value),
        advanced(s, ReplyModel::Bytes(bytes)) == after_bytes(s, bytes),
        advanced(s, ReplyModel::Properties(props)) == after_properties(s, props),
        advanced(s, ReplyModel::Saved(saved)) == after_saved(s, saved),
        advanced(s, ReplyModel::Group(info)) == after_group(s, info),
        advanced(s, ReplyModel::Done) == after_done(s),
{
}

// ---------------------------------------------------------------------------
// The display
// ---------------------------------------------------------------------------

/// The display is looked for on the interface `wlo1` alone, among all its peers, by its address.
pub proof fn law_the_display_is_found(
    s: ConnectingModel,
    interface: Seq<char>,
    peer: Seq<char>,
    address: Seq<u8>,
)
    requires
        s.phase == Phase::Interfaces,
        credentials::address_text(address) == s.target,
    ensures
        ({
            let first = after_paths(s, seq![interface]);
            let named = after_text(first.state, Some("wlo1"@));
            let listed = after_paths(named.state, seq![peer]);
            let found = after_bytes(listed.state, address);
            &&& leads_to(first, TaskModel::ReadName { interface })
            &&& leads_to(named, TaskModel::ListPeers { interface })
            &&& leads_to(listed, TaskModel::ReadAddress { peer })
            &&& leads_to(found, TaskModel::ListGroups { interface })
            &&& found.state.parent == Some(interface)
            &&& found.state.peer == peer
        }),
{
}

/// What follows when an interface, or the last peer of one, was not the right one: the next
/// interface; behind the last, the groups of the interface on which the display was found, or
/// the end where it was not.
pub open spec fn goes_on_from(s: ConnectingModel, step: Advance) -> bool {
    &&& s.at + 1 < s.todo.len() ==> leads_to(
        step,
        TaskModel::ReadName { interface: s.todo[s.at + 1] },
    )
    &&& s.at + 1 == s.todo.len() && s.parent is Some ==> leads_to(
        step,
        TaskModel::ListGroups { interface: s.parent->Some_0 },
    )
    &&& s.at + 1 == s.todo.len() && s.parent is None ==> ends_with(
        step,
        HelperError::NotDiscovered,
    )
}

/// Interfaces of other names are passed over, and so are peers of other addresses; the search
/// goes on with the next.
pub proof fn law_others_are_passed_over(
    s: ConnectingModel,
    name: Option<Seq<char>>,
    address: Seq<u8>,
)
    requires
        0 <= s.at < s.todo.len(),
        0 <= s.peer_at < s.peers.len(),
        name != Some("wlo1"@),
        credentials::address_text(address) != s.target,
    ensures
        s.phase == Phase::Name ==> {
            let next = after_text(s, name);
            goes_on_from(s, next) && next.state.parent == s.parent
        },
        s.phase == Phase::Address ==> {
            let next = after_bytes(s, address);
            &&& s.peer_at + 1 < s.peers.len() ==> leads_to(
                next,
                TaskModel::ReadAddress { peer: s.peers[s.peer_at + 1] },
            )
            &&& s.peer_at + 1 == s.peers.len() ==> goes_on_from(s, next)
            &&& next.state.parent == s.parent
        },
        s.phase == Phase::Peers ==> goes_on_from(s, after_paths(s, Seq::empty())),
        s.phase == Phase::Interfaces && s.parent is None ==> ends_with(
            after_paths(s, Seq::empty()),
            HelperError::NotDiscovered,
        ),
{
}

/// Where the display is found on several interfaces, the last of them counts.
pub proof fn law_the_search_goes_on_behind_the_display(s: ConnectingModel, address: Seq<u8>)
    requires
        s.phase == Phase::Address,
        0 <= s.at < s.todo.len(),
        0 <= s.peer_at < s.peers.len(),
        credentials::address_text(address) == s.target,
    ensures
        ({
            let next = after_bytes(s, address);
            &&& next.state.parent == Some(s.todo[s.at])
            &&& next.state.peer == s.peers[s.peer_at]
            &&& goes_on_from(ConnectingModel { parent: Some(s.todo[s.at]), ..s }, next)
        }),
{
}

// ---------------------------------------------------------------------------
// The groups
// ---------------------------------------------------------------------------

/// The groups of a list that are pairings with a display, in their order.
pub open spec fn pairings(
    paths: Seq<Seq<char>>,
    props: Seq<Map<Seq<char>, Seq<char>>>,
    target: Seq<char>,
) -> Seq<(Seq<char>, Map<Seq<char>, Seq<char>>)>
    decreases props.len(),
{
    if props.len() == 0 {
        Seq::empty()
    } else {
        let before = pairings(paths, props.drop_last(), target);
        if credentials::is_pairing_with(props.last(), target) {
            before.push((paths[props.len() - 1], props.last()))
        } else {
            before
        }
    }
}

/// What a list of groups and their properties lead to, one after the other; nothing follows an
/// error.
pub open spec fn after_groups(
    s: ConnectingModel,
    paths: Seq<Seq<char>>,
    props: Seq<Map<Seq<char>, Seq<char>>>,
) -> Advance
    decreases props.len(),
{
    if props.len() == 0 {
        after_paths(s, paths)
    } else {
        let before = after_groups(s, paths, props.drop_last());
        match before.result {
            Err(_) => before,
            Ok(_) => after_properties(before.state, props.last()),
        }
    }
}

/// The groups, one after the other.
proof fn lemma_groups(
    s: ConnectingModel,
    paths: Seq<Seq<char>>,
    props: Seq<Map<Seq<char>, Seq<char>>>,
)
    requires
        s.phase == Phase::Groups,
        s.groups.len() == 0,
        props.len() < paths.len(),
    ensures
        ({
            let r = after_groups(s, paths, props);
            &&& leads_to(r, TaskModel::ReadGroup { group: paths[props.len() as int] })
            &&& r.state == (ConnectingModel {
                phase: Phase::Group,
                todo: paths,
                at: props.len() as int,
                groups: pairings(paths, props, s.target),
                ..s
            })
        }),
    decreases props.len(),
{
    if props.len() == 0 {
        assert(pairings(paths, props, s.target) =~= s.groups);
    } else {
        lemma_groups(s, paths, props.drop_last());
    }
}

/// Every group of the interface is looked at. Behind the last, an inspection tells how many
/// are pairings with the display, or looks for a saved one where none is; a connection looks
/// for groups that are up.
pub proof fn law_every_group_is_looked_at(
    s: ConnectingModel,
    paths: Seq<Seq<char>>,
    props: Seq<Map<Seq<char>, Seq<char>>>,
)
    requires
        s.phase == Phase::Groups,
        s.groups.len() == 0,
        props.len() == paths.len(),
    ensures
        ({
            let r = after_groups(s, paths, props);
            let ours = pairings(paths, props, s.target);
            &&& r.state.groups == ours
            &&& s.operation == Operation::Connect ==> leads_to(r, TaskModel::ListActive)
            &&& s.operation == Operation::Inspect && ours.len() == 0 ==> leads_to(
                r,
                TaskModel::Load,
            )
            &&& s.operation == Operation::Inspect && ours.len() > 0 ==> leads_to(
                r,
                TaskModel::Tell(
                    NoticeModel {
                        event: "inspection"@,
                        message: None,
                        interface: None,
                        reused: None,
                        count: Some(ours.len() as int),
                    },
                ),
            )
        }),
{
    if props.len() == 0 {
        assert(pairings(paths, props, s.target) =~= s.groups);
    } else {
        lemma_groups(s, paths, props.drop_last());
    }
}

/// An inspection that finds no group tells whether a pairing is saved, and is over then.
pub proof fn law_inspections_end(s: ConnectingModel, saved: Option<Map<Seq<char>, Seq<char>>>)
    requires
        s.phase == Phase::Inspection,
    ensures
        ({
            let told = after_saved(s, saved);
            let count: int = if saved is Some {
                1
            } else {
                0
            };
            &&& leads_to(
                told,
                TaskModel::Tell(
                    NoticeModel {
                        event: "inspection"@,
                        message: None,
                        interface: None,
                        reused: None,
                        count: Some(count),
                    },
                ),
            )
            &&& leads_to(after_done(told.state), TaskModel::Finished)
        }),
{
}

/// What a list of interfaces and what is up on them lead to, one after the other; nothing
/// follows an error.
pub open spec fn after_interfaces(
    s: ConnectingModel,
    paths: Seq<Seq<char>>,
    values: Seq<Option<Seq<char>>>,
) -> Advance
    decreases values.len(),
{
    if values.len() == 0 {
        after_paths(s, paths)
    } else {
        let before = after_interfaces(s, paths, values.drop_last());
        match before.result {
            Err(_) => before,
            Ok(_) => after_text(before.state, values.last()),
        }
    }
}

/// Whether no group is up on an interface.
pub open spec fn is_idle(value: Option<Seq<char>>) -> bool {
    value is None || value == Some("/"@)
}

/// The interfaces without a group, one after the other.
proof fn lemma_idle(s: ConnectingModel, paths: Seq<Seq<char>>, values: Seq<Option<Seq<char>>>)
    requires
        s.phase == Phase::Active,
        values.len() <= paths.len(),
        forall|i: int| 0 <= i < values.len() ==> is_idle(#[trigger] values[i]),
    ensures
        ({
            let r = after_interfaces(s, paths, values);
            &&& values.len() < paths.len() ==> leads_to(
                r,
                TaskModel::ReadActive { interface: paths[values.len() as int] },
            ) && r.state.phase == Phase::ActiveGroup && r.state.at == values.len()
            &&& values.len() == paths.len() ==> leads_to(r, TaskModel::Load)
            &&& r.state.todo == paths
            &&& r.state.groups == s.groups
            &&& r.state.parent == s.parent
            &&& r.state.cleanup.previous_interfaces == paths
            &&& r.state.cleanup.peer == Some(s.peer)
        }),
    decreases values.len(),
{
    if values.len() > 0 {
        let before = values.drop_last();
        assert forall|i: int| 0 <= i < before.len() implies is_idle(#[trigger] before[i]) by {
            assert(before[i] == values[i]);
        }
        lemma_idle(s, paths, before);
        assert(is_idle(values[values.len() - 1]));
    }
}

/// A connection is made only where no interface has a group: every one is looked at, and the
/// first with a group ends the way. The interfaces from before are remembered.
pub proof fn law_no_other_group_may_be_up(
    s: ConnectingModel,
    paths: Seq<Seq<char>>,
    values: Seq<Option<Seq<char>>>,
    group: Seq<char>,
)
    requires
        s.phase == Phase::Active,
        forall|i: int| 0 <= i < values.len() ==> is_idle(#[trigger] values[i]),
        group != "/"@,
    ensures
        values.len() == paths.len() ==> {
            let r = after_interfaces(s, paths, values);
            leads_to(r, TaskModel::Load) && r.state.cleanup.previous_interfaces == paths
                && r.state.cleanup.peer == Some(s.peer)
        },
        values.len() < paths.len() ==> ends_with(
            after_interfaces(s, paths, values.push(Some(group))),
            HelperError::GroupExists,
        ),
{
    if values.len() <= paths.len() {
        lemma_idle(s, paths, values);
        let more = values.push(Some(group));
        assert(more.drop_last() =~= values);
    }
}

// ---------------------------------------------------------------------------
// The connection
// ---------------------------------------------------------------------------

/// A notice of progress.
pub open spec fn progress(message: Seq<char>, reused: bool) -> TaskModel {
    TaskModel::Tell(
        NoticeModel {
            event: "status"@,
            message: Some(message),
            interface: None,
            reused: Some(reused),
            count: None,
        },
    )
}

/// Before a connection is asked for, the signals of the interface are subscribed to, the
/// advertisement is kept for later and that of a source is set.
pub proof fn law_the_source_is_advertised(s: ConnectingModel, old_bytes: Seq<u8>)
    requires
        s.phase == Phase::Subscribing,
    ensures
        ({
            let read = after_done(s);
            let set = after_bytes(read.state, old_bytes);
            &&& leads_to(read, TaskModel::ReadAdvertisement)
            &&& read.state.cleanup.parent == s.parent
            &&& leads_to(set, TaskModel::SetAdvertisement(network::source_elements()))
            &&& set.state.cleanup.advertisement == Some(old_bytes)
            &&& set.state.cleanup.initiated == s.cleanup.initiated
            &&& set.state.groups == s.groups && set.state.parent == s.parent
            &&& set.state.peer == s.peer && set.state.saved == s.saved
            &&& set.state.phase == Phase::Advertising
        }),
{
}

/// From then on there is something to be undone, and the client is told whether a pairing is
/// used again or the display is paired for the first time.
pub proof fn law_the_client_is_told_of_the_pairing(s: ConnectingModel)
    requires
        s.phase == Phase::Advertising,
    ensures
        ({
            let next = after_done(s);
            &&& next.state.cleanup.initiated
            &&& next.state.cleanup.advertisement == s.cleanup.advertisement
            &&& s.groups.len() > 0 ==> leads_to(
                next,
                progress("reinviting saved persistent group"@, true),
            ) && next.state.phase == Phase::Inviting
            &&& s.groups.len() == 0 ==> leads_to(
                next,
                progress(
                    "first persistent pairing; confirm Wi-Fi Direct on TV if requested"@,
                    false,
                ),
            ) && next.state.phase == Phase::Announcing
            &&& next.state.groups == s.groups && next.state.parent == s.parent
            &&& next.state.peer == s.peer && next.state.saved == s.saved
        }),
{
}

/// A display with a pairing is invited to the group that was chosen of them; one without is
/// paired for good, at the push of a button, and may well own the group. Either way the group
/// is awaited.
pub proof fn law_displays_are_invited_or_paired(s: ConnectingModel, interface: Seq<char>)
    requires
        s.parent == Some(interface),
    ensures
        s.phase == Phase::Inviting && s.groups.len() > 0 ==> {
            let asked = after_done(s);
            let chosen = helper::best_group(s.groups, s.saved, s.groups.len() as int);
            &&& leads_to(
                asked,
                TaskModel::Invite { interface, peer: s.peer, group: s.groups[chosen].0 },
            )
            &&& leads_to(after_done(asked.state), TaskModel::AwaitGroup)
        },
        s.phase == Phase::Announcing ==> {
            let asked = after_done(s);
            &&& leads_to(
                asked,
                TaskModel::Pair {
                    interface,
                    peer: s.peer,
                    persistent: true,
                    method: "pbc"@,
                    intent: 7,
                },
            )
            &&& leads_to(after_done(asked.state), TaskModel::AwaitGroup)
        },
{
}

/// With pairings the connection goes on, and says that one is used again. Without, a saved one
/// is restored first; where none is saved either, the display is paired only with leave.
pub proof fn law_pairings_are_used_again(
    s: ConnectingModel,
    interface: Seq<char>,
    saved: Option<Map<Seq<char>, Seq<char>>>,
)
    requires
        s.phase == Phase::Loading,
        s.parent == Some(interface),
    ensures
        ({
            let next = after_saved(s, saved);
            &&& next.state.saved == saved
            &&& s.groups.len() > 0 ==> leads_to(next, TaskModel::Subscribe { interface })
                && next.state.reused
            &&& s.groups.len() == 0 && saved is None && s.allow_pairing ==> leads_to(
                next,
                TaskModel::Subscribe { interface },
            ) && !next.state.reused
            &&& s.groups.len() == 0 && saved is None && !s.allow_pairing ==> ends_with(
                next,
                HelperError::PairingForbidden,
            )
            &&& s.groups.len() == 0 && saved is Some && credentials::restored(
                saved->Some_0,
            ) is Err ==> ends_with(
                next,
                HelperError::Credential(credentials::restored(saved->Some_0)->Err_0),
            )
            &&& s.groups.len() == 0 && saved is Some && credentials::restored(
                saved->Some_0,
            ) is Ok ==> leads_to(
                next,
                TaskModel::Restore {
                    interface,
                    values: credentials::restored(saved->Some_0)->Ok_0,
                },
            )
        }),
{
}

/// A pairing that was restored is used like one that was there.
pub proof fn law_restored_pairings_are_used(
    s: ConnectingModel,
    interface: Seq<char>,
    saved: Map<Seq<char>, Seq<char>>,
    path: Seq<char>,
)
    requires
        s.phase == Phase::Restoring,
        s.parent == Some(interface),
        s.groups.len() == 0,
        s.saved == Some(saved),
    ensures
        ({
            let told = after_text(s, Some(path));
            let next = after_done(told.state);
            &&& leads_to(told, progress("restoring saved pairing from disk"@, true))
            &&& leads_to(next, TaskModel::Subscribe { interface })
            &&& next.state.groups == seq![(path, saved)]
            &&& next.state.reused
            &&& ends_with(after_text(s, None), HelperError::Unexpected)
        }),
{
    assert(s.groups.push((path, saved)) =~= seq![(path, saved)]);
}

/// A group that came up, with the source as a client of the display, is looked at: the name of
/// its interface, then its owner.
pub proof fn law_the_group_is_looked_at(
    s: ConnectingModel,
    info: GroupInfo,
    interface: Seq<char>,
    name: Seq<char>,
    group: Seq<char>,
)
    requires
        s.phase == Phase::Awaiting,
        helper::text_view(info.interface) == Some(interface),
        helper::text_view(info.role) == Some("client"@),
        helper::text_view(info.group) == Some(group),
    ensures
        ({
            let up = after_group(s, info);
            let named = after_text(up.state, Some(name));
            &&& leads_to(up, TaskModel::ReadInterfaceName { interface })
            &&& up.state.cleanup.group == Some(interface)
            &&& leads_to(named, TaskModel::ReadOwner { group })
            &&& named.state.name == name && named.state.group == group
            &&& named.state.info == Some(info) && named.state.peer == s.peer
            &&& named.state.phase == Phase::Owner
        }),
{
}

/// The group is that of the display where its owner has an address of six bytes and the
/// display names it among its groups.
pub proof fn law_the_group_is_that_of_the_display(
    s: ConnectingModel,
    owner: Seq<u8>,
    groups: Seq<Seq<char>>,
)
    requires
        s.phase == Phase::Owner,
    ensures
        ({
            let owned = after_bytes(s, owner);
            let member = after_paths(owned.state, groups);
            &&& leads_to(owned, TaskModel::ReadMembership { peer: s.peer })
            &&& owner.len() == 6 && groups.contains(s.group) ==> leads_to(
                member,
                TaskModel::ReadNetwork { group: s.group },
            ) && member.state.phase == Phase::Network
            &&& owner.len() != 6 || !groups.contains(s.group) ==> ends_with(
                member,
                HelperError::OtherGroup,
            )
            &&& member.state.info == s.info && member.state.name == s.name
        }),
{
}

/// A group without an interface, one in which the source is not a client and one without a
/// path are refused; the interface that came up is undone all the same.
pub proof fn law_other_groups_are_refused(s: ConnectingModel, info: GroupInfo, name: Seq<char>)
    requires
        s.phase == Phase::Awaiting,
    ensures
        ({
            let up = after_group(s, info);
            let interface = helper::text_view(info.interface);
            let client = helper::text_view(info.role) == Some("client"@);
            &&& interface is None ==> ends_with(up, HelperError::NoInterface)
            &&& interface is Some && !client ==> ends_with(up, HelperError::NotOwner)
            &&& interface is Some ==> up.state.cleanup.group == interface
            &&& interface is Some && client && helper::text_view(info.group) is None ==> ends_with(
                after_text(up.state, Some(name)),
                HelperError::NoGroup,
            )
        }),
{
}

/// The groups that were kept, one after the other.
proof fn lemma_kept_groups(
    s: ConnectingModel,
    paths: Seq<Seq<char>>,
    props: Seq<Map<Seq<char>, Seq<char>>>,
)
    requires
        s.phase == Phase::RetainedGroups,
        s.retained.len() == 0,
        props.len() < paths.len(),
    ensures
        ({
            let r = after_groups(s, paths, props);
            &&& leads_to(r, TaskModel::ReadGroup { group: paths[props.len() as int] })
            &&& r.state == (ConnectingModel {
                phase: Phase::RetainedGroup,
                todo: paths,
                at: props.len() as int,
                retained: pairings(paths, props, s.target),
                ..s
            })
        }),
    decreases props.len(),
{
    if props.len() == 0 {
        assert(pairings(paths, props, s.target) =~= s.retained);
    } else {
        lemma_kept_groups(s, paths, props.drop_last());
    }
}

/// Every group of the interface is looked at anew, for the pairing that is connected. Of the
/// pairings with the display the newest of the network is saved where it tells its key. Where
/// it does not, it has to be the one that is saved already.
pub proof fn law_the_pairing_is_saved(
    s: ConnectingModel,
    paths: Seq<Seq<char>>,
    props: Seq<Map<Seq<char>, Seq<char>>>,
)
    requires
        s.phase == Phase::RetainedGroups,
        s.retained.len() == 0,
        props.len() == paths.len(),
    ensures
        ({
            let r = after_groups(s, paths, props);
            let ours = pairings(paths, props, s.target);
            let newest = helper::newest_of(ours, s.ssid, ours.len() as int);
            let chosen = ours[newest->Some_0].1;
            let known = s.saved is Some && credentials::have_same_ssid(s.saved->Some_0, chosen);
            let confirmed = s.info is Some && helper::addresses_confirmed(s.info->Some_0);
            &&& newest is None ==> ends_with(r, HelperError::NotRetained)
            &&& newest is Some && chosen.contains_key("psk"@) ==> leads_to(
                r,
                TaskModel::Save { props: chosen },
            ) && r.state.phase == Phase::Saving && r.state.name == s.name && r.state.info == s.info
                && r.state.reused == s.reused
            &&& newest is Some && !chosen.contains_key("psk"@) && !known ==> ends_with(
                r,
                HelperError::NotExportable,
            )
            &&& newest is Some && !chosen.contains_key("psk"@) && known && !confirmed ==> ends_with(
                r,
                HelperError::WrongAddress,
            )
            &&& newest is Some && !chosen.contains_key("psk"@) && known && confirmed
                && helper::is_configurable(s.name) ==> leads_to(
                r,
                TaskModel::Configure {
                    name: s.name,
                    address: seq![192u8, 168, 49, 10],
                    mask: seq![255u8, 255, 255, 0],
                },
            )
        }),
{
    if props.len() == 0 {
        assert(pairings(paths, props, s.target) =~= s.retained);
    } else {
        lemma_kept_groups(s, paths, props.drop_last());
    }
}

/// The network of the group is the one whose pairing is looked for.
pub proof fn law_the_network_is_remembered(
    s: ConnectingModel,
    interface: Seq<char>,
    ssid: Seq<u8>,
)
    requires
        s.phase == Phase::Network,
        s.parent == Some(interface),
    ensures
        ({
            let next = after_bytes(s, ssid);
            &&& leads_to(next, TaskModel::ListGroups { interface })
            &&& next.state.ssid == ssid
            &&& next.state.phase == Phase::RetainedGroups
        }),
{
}

/// When the pairing is saved, the interface is given its address where the display agreed to
/// it and the interface is one of Wi-Fi Direct.
pub proof fn law_the_interface_is_given_its_address(s: ConnectingModel)
    requires
        s.phase == Phase::Saving,
    ensures
        ({
            let next = after_done(s);
            let confirmed = s.info is Some && helper::addresses_confirmed(s.info->Some_0);
            &&& !confirmed ==> ends_with(next, HelperError::WrongAddress)
            &&& confirmed && !helper::is_configurable(s.name) ==> ends_with(
                next,
                HelperError::InvalidInterfaceName,
            )
            &&& confirmed && helper::is_configurable(s.name) ==> leads_to(
                next,
                TaskModel::Configure {
                    name: s.name,
                    address: seq![192u8, 168, 49, 10],
                    mask: seq![255u8, 255, 255, 0],
                },
            ) && next.state.phase == Phase::Configuring
            &&& next.state.name == s.name && next.state.reused == s.reused
        }),
{
}

/// Then the client is told that the connection is up, with its interface and whether a pairing
/// was used again, and the connection is held.
pub proof fn law_connections_come_up(s: ConnectingModel)
    requires
        s.phase == Phase::Configuring,
    ensures
        ({
            let told = after_done(s);
            let held = after_done(told.state);
            &&& leads_to(
                told,
                TaskModel::Tell(
                    NoticeModel {
                        event: "ready"@,
                        message: None,
                        interface: Some(s.name),
                        reused: Some(s.reused),
                        count: None,
                    },
                ),
            )
            &&& leads_to(held, TaskModel::Hold)
        }),
{
}

/// Whether a step ends the way for a reply of the wrong kind, and changes nothing.
pub open spec fn is_wrong(s: ConnectingModel, step: Advance) -> bool {
    ends_with(step, HelperError::Unexpected) && step.state == s
}

/// Lists and texts that were not asked for end the way.
pub proof fn law_wrong_lists_and_texts_end_the_way(
    s: ConnectingModel,
    paths: Seq<Seq<char>>,
    value: Option<Seq<char>>,
)
    ensures
        !(s.phase == Phase::Interfaces || s.phase == Phase::Peers || s.phase == Phase::Groups
            || s.phase == Phase::Active || s.phase == Phase::Membership || s.phase
            == Phase::RetainedGroups) ==> is_wrong(s, after_paths(s, paths)),
        !(s.phase == Phase::Name || s.phase == Phase::ActiveGroup || s.phase == Phase::Restoring
            || s.phase == Phase::InterfaceName) ==> is_wrong(s, after_text(s, value)),
{
}

/// Bytes, properties, pairings and groups that were not asked for end the way.
pub proof fn law_wrong_values_end_the_way(
    s: ConnectingModel,
    bytes: Seq<u8>,
    props: Map<Seq<char>, Seq<char>>,
    saved: Option<Map<Seq<char>, Seq<char>>>,
    info: GroupInfo,
)
    ensures
        !(s.phase == Phase::Address || s.phase == Phase::Advertised || s.phase == Phase::Owner
            || s.phase == Phase::Network) ==> is_wrong(s, after_bytes(s, bytes)),
        !(s.phase == Phase::Group || s.phase == Phase::RetainedGroup) ==> is_wrong(
            s,
            after_properties(s, props),
        ),
        !(s.phase == Phase::Inspection || s.phase == Phase::Loading) ==> is_wrong(
            s,
            after_saved(s, saved),
        ),
        s.phase != Phase::Awaiting ==> is_wrong(s, after_group(s, info)),
        s.phase == Phase::Holding || s.phase == Phase::Over ==> is_wrong(s, after_done(s)),
{
}

} // verus!
