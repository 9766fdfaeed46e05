//! Catalog data: the offering bots and their packs. The HTTP search
//! service itself stays outside; this module owns the plain records it
//! yields, the status check on its replies, and the join of pack entries
//! to their bots.

use vstd::prelude::*;
use std::rc::Rc;

verus! {

/// Identity of a file-offering peer. Shared by reference across every pack
/// it offers; never mutated after creation.
pub struct Bot {
    pub name: String,
}

/// One numbered file offer, as the user selects it.
pub struct Pack {
    pub bot: Rc<Bot>,
    pub number: usize,
    pub name: String,
    pub size: String,
}

/// The status header of a catalog reply.
pub struct NiblStatus {
    pub status: String,
    pub message: String,
}

/// A reply is usable exactly when its status reads `OK`; otherwise its
/// message is handed back as the error.
pub fn check_status(status: &NiblStatus) -> (r: Result<(), String>)
    ensures
        r is Ok <==> status.status@ == "OK"@,
        r matches Err(m) ==> m@ == status.message@,
{
    let ok: String = "OK".to_owned();
    if status.status == ok {
        Ok(())
    } else {
        Err(status.message.clone())
    }
}

/// A bot row of the catalog listing.
pub struct BotRecord {
    pub id: usize,
    pub name: String,
}

/// A pack row of a catalog search, referring to its bot by id.
pub struct PackRecord {
    pub bot_id: usize,
    pub number: usize,
    pub name: String,
    pub size: String,
}

/// A pack row naming a bot id that the bot listing does not carry.
#[derive(Debug)]
pub enum CatalogError {
    UnknownBot { bot_id: usize },
}

pub open spec fn find_bot_from(bots: Seq<BotRecord>, id: usize, i: int) -> Option<int>
    decreases bots.len() - i,
{
    if i < 0 || i >= bots.len() {
        None
    } else if bots[i].id == id {
        Some(i)
    } else {
        find_bot_from(bots, id, i + 1)
    }
}

/// Index of the first bot row with the given id.
pub open spec fn find_bot(bots: Seq<BotRecord>, id: usize) -> Option<int> {
    find_bot_from(bots, id, 0)
}

fn find_bot_exec(bots: &Vec<BotRecord>, id: usize) -> (r: Option<usize>)
    ensures
        match r {
            Some(j) => j < bots@.len() && find_bot(bots@, id) == Some(j as int),
            None => find_bot(bots@, id) is None,
        },
{
    let mut j: usize = 0;
    while j < bots.len()
        invariant
            j <= bots@.len(),
            find_bot_from(bots@, id, 0) == find_bot_from(bots@, id, j as int),
        decreases bots@.len() - j,
    {
        if bots[j].id == id {
            assert(find_bot_from(bots@, id, j as int) == Some(j as int));
            return Some(j);
        }
        j = j + 1;
    }
    assert(find_bot_from(bots@, id, j as int) is None);
    None
}

/// Relies on `Rc::clone`: the returned handle refers to the same value as
/// the one cloned.
#[verifier::external_body]
fn rc_clone(b: &Rc<Bot>) -> (r: Rc<Bot>)
    ensures
        r == *b,
{
    Rc::clone(b)
}

/// Join each pack row to its bot: every pack of the result carries the
/// name of the first bot row with its id, with one shared `Bot` value per
/// bot row. Fails on the first pack row whose bot id is unknown.
pub fn build_packs(bots: &Vec<BotRecord>, entries: &Vec<PackRecord>) -> (r: Result<
    Vec<Pack>,
    CatalogError,
>)
    ensures
        r is Ok <==> (forall|i: int|
            0 <= i < entries@.len() ==> #[trigger] find_bot(bots@, entries@[i].bot_id) is Some),
        r matches Ok(packs) ==> {
            &&& packs@.len() == entries@.len()
            &&& forall|i: int|
                0 <= i < entries@.len() ==> {
                    &&& (#[trigger] packs@[i]).number == entries@[i].number
                    &&& packs@[i].name@ == entries@[i].name@
                    &&& packs@[i].size@ == entries@[i].size@
                    &&& packs@[i].bot.name@ == bots@[find_bot(
                        bots@,
                        entries@[i].bot_id,
                    )->Some_0].name@
                }
        },
        r matches Err(e) ==> exists|k: int|
            {
                &&& 0 <= k < entries@.len()
                &&& #[trigger] find_bot(bots@, entries@[k].bot_id) is None
                &&& forall|j: int| 0 <= j < k ==> #[trigger] find_bot(bots@, entries@[j].bot_id) is Some
                &&& e == (CatalogError::UnknownBot { bot_id: entries@[k].bot_id })
            },
{
    let mut shared: Vec<Rc<Bot>> = Vec::new();
    let mut i: usize = 0;
    while i < bots.len()
        invariant
            i <= bots@.len(),
            shared@.len() == i,
            forall|k: int| 0 <= k < i ==> (#[trigger] shared@[k]).name@ == bots@[k].name@,
        decreases bots@.len() - i,
    {
        shared.push(Rc::new(Bot { name: bots[i].name.clone() }));
        i = i + 1;
    }
    let mut packs: Vec<Pack> = Vec::new();
    let mut e: usize = 0;
    while e < entries.len()
        invariant
            e <= entries@.len(),
            shared@.len() == bots@.len(),
            forall|k: int| 0 <= k < bots@.len() ==> (#[trigger] shared@[k]).name@ == bots@[k].name@,
            packs@.len() == e,
            forall|j: int| 0 <= j < e ==> #[trigger] find_bot(bots@, entries@[j].bot_id) is Some,
            forall|j: int|
                0 <= j < e ==> {
                    &&& (#[trigger] packs@[j]).number == entries@[j].number
                    &&& packs@[j].name@ == entries@[j].name@
                    &&& packs@[j].size@ == entries@[j].size@
                    &&& packs@[j].bot.name@ == bots@[find_bot(
                        bots@,
                        entries@[j].bot_id,
                    )->Some_0].name@
                },
        decreases entries@.len() - e,
    {
        let row = &entries[e];
        match find_bot_exec(bots, row.bot_id) {
            Some(bi) => {
                let bot = rc_clone(&shared[bi]);
                packs.push(
                    Pack {
                        bot,
                        number: row.number,
                        name: row.name.clone(),
                        size: row.size.clone(),
                    },
                );
            },
            None => {
                return Err(CatalogError::UnknownBot { bot_id: row.bot_id });
            },
        }
        e = e + 1;
    }
    Ok(packs)
}

} // verus!
