use vstd::prelude::*;
use crate::models::communication::Response;
use crate::models::lobby::User;

verus! {

/// One outbound delivery: a response to be serialized once and handed to the
/// outbound channel of every listed connection id, in list order.
pub struct Outbound {
    pub recipients: Vec<String>,
    pub response: Response,
}

/// The ids of `users`, in order.
pub open spec fn ids_of(users: Seq<User>) -> Seq<Seq<char>> {
    users.map_values(|u: User| u.id@)
}

/// The ids of `users` other than `x`, in order.
pub open spec fn ids_except(users: Seq<User>, x: Seq<char>) -> Seq<Seq<char>>
    decreases users.len(),
{
    if users.len() == 0 {
        Seq::empty()
    } else {
        ids_except(users.drop_last(), x) + if users.last().id@ != x {
            seq![users.last().id@]
        } else {
            Seq::<Seq<char>>::empty()
        }
    }
}

/// The views of a list of strings, in order.
pub open spec fn views_of(ids: Seq<String>) -> Seq<Seq<char>> {
    ids.map_values(|s: String| s@)
}

/// The views of the strings of `ids` other than `x`, in order.
pub open spec fn views_except(ids: Seq<String>, x: Seq<char>) -> Seq<Seq<char>>
    decreases ids.len(),
{
    if ids.len() == 0 {
        Seq::empty()
    } else {
        views_except(ids.drop_last(), x) + if ids.last()@ != x {
            seq![ids.last()@]
        } else {
            Seq::<Seq<char>>::empty()
        }
    }
}

/// Addresses a response to the single connection id it is meant for. The
/// transport drops the frame silently if that id holds no channel.
pub fn send_message(response: Response, id: &String) -> (ob: Outbound)
    ensures
        views_of(ob.recipients@) == seq![id@],
        ob.response == response,
{
    let mut recipients: Vec<String> = Vec::new();
    recipients.push(id.clone());
    proof {
        assert(views_of(recipients@) =~= seq![id@]);
    }
    Outbound { recipients, response }
}

/// Addresses a response to every connection in the given list.
pub fn broadcast_message_all(response: Response, connections: &Vec<String>) -> (ob: Outbound)
    ensures
        views_of(ob.recipients@) == views_of(connections@),
        ob.response == response,
{
    let mut recipients: Vec<String> = Vec::new();
    let mut k: usize = 0;
    while k < connections.len()
        invariant
            0 <= k <= connections@.len(),
            recipients@.len() == k,
            forall|i: int| 0 <= i < k ==> (#[trigger] recipients@[i])@ == connections@[i]@,
        decreases connections@.len() - k,
    {
        recipients.push(connections[k].clone());
        k += 1;
    }
    proof {
        assert(views_of(recipients@) =~= views_of(connections@));
    }
    Outbound { recipients, response }
}

/// Addresses a response to every connection in the given list but `except`.
pub fn broadcast_message_except(
    response: Response,
    connections: &Vec<String>,
    except: &String,
) -> (ob: Outbound)
    ensures
        views_of(ob.recipients@) == views_except(connections@, except@),
        ob.response == response,
{
    let mut recipients: Vec<String> = Vec::new();
    let mut k: usize = 0;
    while k < connections.len()
        invariant
            0 <= k <= connections@.len(),
            views_of(recipients@) == views_except(connections@.take(k as int), except@),
        decreases connections@.len() - k,
    {
        proof {
            let t = connections@.take(k as int + 1);
            assert(t.drop_last() =~= connections@.take(k as int));
            assert(t.last() == connections@[k as int]);
        }
        if !connections[k].eq(except) {
            recipients.push(connections[k].clone());
            proof {
                assert(views_of(recipients@) =~= views_except(
                    connections@.take(k as int + 1),
                    except@,
                ));
            }
        } else {
            proof {
                assert(views_of(recipients@) =~= views_except(
                    connections@.take(k as int + 1),
                    except@,
                ));
            }
        }
        k += 1;
    }
    proof {
        assert(connections@.take(connections@.len() as int) =~= connections@);
    }
    Outbound { recipients, response }
}

/// Addresses a response to every member of the given room roster.
pub fn broadcast_message_room_all(response: Response, user_list: &Vec<User>) -> (ob: Outbound)
    ensures
        views_of(ob.recipients@) == ids_of(user_list@),
        ob.response == response,
{
    let mut recipients: Vec<String> = Vec::new();
    let mut k: usize = 0;
    while k < user_list.len()
        invariant
            0 <= k <= user_list@.len(),
            recipients@.len() == k,
            forall|i: int| 0 <= i < k ==> (#[trigger] recipients@[i])@ == user_list@[i].id@,
        decreases user_list@.len() - k,
    {
        recipients.push(user_list[k].id.clone());
        k += 1;
    }
    proof {
        assert(views_of(recipients@) =~= ids_of(user_list@));
    }
    Outbound { recipients, response }
}

/// Addresses a response to every member of the given room roster whose id is
/// not `id`, preserving roster order.
pub fn broadcast_message_room_except(response: Response, user_list: &Vec<User>, id: &String) -> (ob:
    Outbound)
    ensures
        views_of(ob.recipients@) == ids_except(user_list@, id@),
        ob.response == response,
{
    let mut recipients: Vec<String> = Vec::new();
    let mut k: usize = 0;
    while k < user_list.len()
        invariant
            0 <= k <= user_list@.len(),
            views_of(recipients@) == ids_except(user_list@.take(k as int), id@),
        decreases user_list@.len() - k,
    {
        proof {
            let t = user_list@.take(k as int + 1);
            assert(t.drop_last() =~= user_list@.take(k as int));
            assert(t.last() == user_list@[k as int]);
        }
        if !user_list[k].id.eq(id) {
            recipients.push(user_list[k].id.clone());
            proof {
                assert(views_of(recipients@) =~= ids_except(user_list@.take(k as int + 1), id@));
            }
        } else {
            proof {
                assert(views_of(recipients@) =~= ids_except(user_list@.take(k as int + 1), id@));
            }
        }
        k += 1;
    }
    proof {
        assert(user_list@.take(user_list@.len() as int) =~= user_list@);
    }
    Outbound { recipients, response }
}

} // verus!
