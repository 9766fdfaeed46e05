use xdcc::catalog::{build_packs, check_status, BotRecord, CatalogError, NiblStatus, PackRecord};

#[test]
fn check_status_accepts_ok() {
    let status = NiblStatus { status: "OK".to_owned(), message: "".to_owned() };
    assert!(check_status(&status).is_ok());
}

#[test]
fn check_status_reports_the_message() {
    let status = NiblStatus { status: "ERROR".to_owned(), message: "no such pack".to_owned() };
    assert_eq!(check_status(&status), Err("no such pack".to_owned()));
}

fn bot(id: usize, name: &str) -> BotRecord {
    BotRecord { id, name: name.to_owned() }
}

fn entry(bot_id: usize, number: usize, name: &str, size: &str) -> PackRecord {
    PackRecord { bot_id, number, name: name.to_owned(), size: size.to_owned() }
}

#[test]
fn packs_join_to_their_bots() {
    let bots = vec![bot(3, "Alpha"), bot(9, "Beta")];
    let entries = vec![
        entry(9, 1, "one.mkv", "1G"),
        entry(3, 2, "two.mkv", "700M"),
        entry(9, 5, "five.mkv", "250M"),
    ];
    let packs = build_packs(&bots, &entries).expect("all ids known");
    assert_eq!(packs.len(), 3);
    assert_eq!(packs[0].bot.name, "Beta");
    assert_eq!(packs[0].number, 1);
    assert_eq!(packs[0].name, "one.mkv");
    assert_eq!(packs[0].size, "1G");
    assert_eq!(packs[1].bot.name, "Alpha");
    assert_eq!(packs[2].bot.name, "Beta");
}

#[test]
fn unknown_bot_id_is_an_error() {
    let bots = vec![bot(3, "Alpha")];
    let entries = vec![entry(3, 1, "a", "1"), entry(8, 2, "b", "2")];
    match build_packs(&bots, &entries) {
        Err(CatalogError::UnknownBot { bot_id }) => assert_eq!(bot_id, 8),
        _ => panic!("expected the unknown-bot error"),
    }
}

#[test]
fn empty_search_yields_no_packs() {
    let bots = vec![bot(1, "A")];
    let packs = build_packs(&bots, &Vec::new()).unwrap();
    assert!(packs.is_empty());
}
