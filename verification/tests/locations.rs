use radbot::radlands::locations::{
    CardLocation, CardRowIndex, ColumnIndex, PersonRowIndex, PlayLocation, Player,
    PlayerCardLocation,
};

#[test]
fn locations_round_trip() {
    let loc = PlayerCardLocation::new(ColumnIndex::new(2), CardRowIndex::new(1));
    let full = loc.for_player(Player::Player2);
    assert_eq!(full.player(), Player::Player2);
    assert_eq!(full.player_loc(), loc);
    let back = CardLocation::new(ColumnIndex::new(0), CardRowIndex::camp(), Player::Player1);
    assert_eq!(back.player_loc().for_player(back.player()), back);
}

#[test]
fn locations_rows_convert() {
    let row = PersonRowIndex::new(1);
    assert_eq!(row.to_card_row().as_usize(), 2);
    assert_eq!(CardRowIndex::from_person_row(PersonRowIndex::new(0)).as_usize(), 1);
    assert_eq!(CardRowIndex::new(2).to_person_index(), Ok(PersonRowIndex::new(1)));
    assert_eq!(CardRowIndex::camp().to_person_index(), Err(()));
    assert!(CardRowIndex::camp().is_camp());
    assert!(!CardRowIndex::new(1).is_camp());
}

#[test]
fn locations_play_location_on_board() {
    let play = PlayLocation::new(ColumnIndex::new(1), PersonRowIndex::new(0));
    let card = play.for_player(Player::Player1);
    assert_eq!(card.column().as_usize(), 1);
    assert_eq!(card.row().as_usize(), 1);
    assert_eq!(play.to_player_card_location(), card.player_loc());
}

#[test]
fn locations_players() {
    assert_eq!(Player::Player1.other(), Player::Player2);
    assert_eq!(Player::Player2.other().other(), Player::Player2);
    assert_eq!(Player::Player1.number(), 1);
    assert_eq!(Player::Player2.number(), 2);
    assert_eq!(Player::from_coin(true), Player::Player1);
    assert_eq!(Player::from_coin(false), Player::Player2);
}
