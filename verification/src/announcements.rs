//! The messages that report a change of the game to its players.
use crate::message_broadcaster::{BroadcasterView, MessageBroadcaster};
use crate::messages::{deliveries_view, Delivery, DeliveryView, MessageView, ServerMessage};
use crate::player::{Player, PlayerView};
use crate::roster::players_view;
use vstd::prelude::*;

verus! {

/// Each player's money, sent to that player.
pub open spec fn money_updates(b: BroadcasterView, ps: Seq<PlayerView>) -> Seq<DeliveryView> {
    ps.map_values(
        |p: PlayerView|
            DeliveryView {
                recipients: b.player_recipients(p.id),
                message: MessageView::MoneyUpdate { player_id: p.id, money: p.money },
            },
    )
}

/// Each player's state after a respawn, broadcast to the lobby.
pub open spec fn respawn_notices(b: BroadcasterView, lobby: Seq<char>, ps: Seq<PlayerView>) -> Seq<
    DeliveryView,
> {
    ps.map_values(
        |p: PlayerView|
            DeliveryView {
                recipients: b.lobby_recipients(lobby, None),
                message: MessageView::PlayerRespawned { player: p },
            },
    )
}

/// Sends each of `players` its money.
pub fn push_money_updates(b: &MessageBroadcaster, players: &Vec<Player>, out: &mut Vec<Delivery>)
    requires
        b.wf(),
    ensures
        deliveries_view(final(out)@) == deliveries_view(old(out)@) + money_updates(
            b@,
            players_view(players@),
        ),
{
    let ghost start = deliveries_view(out@);
    let ghost all = money_updates(b@, players_view(players@));
    let mut k: usize = 0;
    assert(deliveries_view(out@) =~= start + all.take(0));
    while k < players.len()
        invariant
            b.wf(),
            start == deliveries_view(old(out)@),
            all == money_updates(b@, players_view(players@)),
            k <= players.len(),
            deliveries_view(out@) == start + all.take(k as int),
        decreases players.len() - k,
    {
        let p = &players[k];
        let msg = ServerMessage::MoneyUpdate { player_id: p.id.clone(), money: p.money };
        let d = b.send_to_player(p.id.as_str(), msg);
        assert(d@ == all[k as int]);
        let ghost before = deliveries_view(out@);
        out.push(d);
        assert(deliveries_view(out@) =~= before.push(all[k as int]));
        assert(start + all.take(k + 1) =~= (start + all.take(k as int)).push(all[k as int]));
        assert(deliveries_view(out@) =~= start + all.take(k + 1));
        k = k + 1;
    }
    assert(all.take(players.len() as int) =~= all);
}

/// Broadcasts to `lobby_id` the state of each of `players` after a respawn.
pub fn push_respawn_notices(
    b: &MessageBroadcaster,
    lobby_id: &str,
    players: &Vec<Player>,
    out: &mut Vec<Delivery>,
)
    requires
        b.wf(),
    ensures
        deliveries_view(final(out)@) == deliveries_view(old(out)@) + respawn_notices(
            b@,
            lobby_id@,
            players_view(players@),
        ),
{
    let ghost start = deliveries_view(out@);
    let ghost all = respawn_notices(b@, lobby_id@, players_view(players@));
    let mut k: usize = 0;
    assert(deliveries_view(out@) =~= start + all.take(0));
    while k < players.len()
        invariant
            b.wf(),
            start == deliveries_view(old(out)@),
            all == respawn_notices(b@, lobby_id@, players_view(players@)),
            k <= players.len(),
            deliveries_view(out@) == start + all.take(k as int),
        decreases players.len() - k,
    {
        let msg = ServerMessage::PlayerRespawned { player: players[k].snapshot() };
        let d = b.broadcast_to_lobby(lobby_id, msg, None);
        assert(d@ == all[k as int]);
        let ghost before = deliveries_view(out@);
        out.push(d);
        assert(deliveries_view(out@) =~= before.push(all[k as int]));
        assert(start + all.take(k + 1) =~= (start + all.take(k as int)).push(all[k as int]));
        assert(deliveries_view(out@) =~= start + all.take(k + 1));
        k = k + 1;
    }
    assert(all.take(players.len() as int) =~= all);
}

} // verus!
