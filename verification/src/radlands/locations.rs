//! Types representing locations of cards on the board.

use vstd::prelude::*;

verus! {

/// A row index for a person (0 or 1) in a column.
#[derive(Debug, Clone, Copy, PartialEq, Eq, Structural, PartialOrd, Ord, Hash)]
pub struct PersonRowIndex(u8);

impl PersonRowIndex {
    #[verifier::type_invariant]
    spec fn inv(self) -> bool {
        self.0 < 2
    }

    /// The row as a mathematical index.
    pub closed spec fn index(self) -> nat {
        self.0 as nat
    }

    /// Creates a person row index from a raw row number (0 is the back row).
    pub fn new(row: usize) -> (r: PersonRowIndex)
        requires
            row < 2,
        ensures
            r.index() == row,
    {
        PersonRowIndex(row as u8)
    }

    /// Returns the row number.
    pub fn as_usize(self) -> (r: usize)
        ensures
            r == self.index(),
            r < 2,
    {
        proof {
            use_type_invariant(&self);
        }
        self.0 as usize
    }

    /// Person rows with the same number are the same.
    pub proof fn lemma_index_injective(a: PersonRowIndex, b: PersonRowIndex)
        requires
            a.index() == b.index(),
        ensures
            a == b,
    {
    }

    /// Returns the card row (1 or 2) of this person row.
    pub fn to_card_row(self) -> (r: CardRowIndex)
        ensures
            r.index() == self.index() + 1,
            self.index() < 2,
    {
        proof {
            use_type_invariant(&self);
        }
        CardRowIndex(self.0 + 1)
    }
}

/// A row index for a card (0 (camp), 1, or 2) in a column.
#[derive(Debug, Clone, Copy, PartialEq, Eq, Structural, PartialOrd, Ord, Hash)]
pub struct CardRowIndex(u8);

impl CardRowIndex {
    #[verifier::type_invariant]
    spec fn inv(self) -> bool {
        self.0 < 3
    }

    /// The row as a mathematical index (0 is the camp).
    pub closed spec fn index(self) -> nat {
        self.0 as nat
    }

    /// Card rows with the same number are the same.
    pub proof fn lemma_index_injective(a: CardRowIndex, b: CardRowIndex)
        requires
            a.index() == b.index(),
        ensures
            a == b,
    {
    }

    /// Creates a card row index from a raw row number.
    pub fn new(row: usize) -> (r: CardRowIndex)
        requires
            row < 3,
        ensures
            r.index() == row,
    {
        CardRowIndex(row as u8)
    }

    /// The row of the camp.
    pub fn camp() -> (r: CardRowIndex)
        ensures
            r.index() == 0,
    {
        CardRowIndex(0)
    }

    /// Returns the row number.
    pub fn as_usize(self) -> (r: usize)
        ensures
            r == self.index(),
            r < 3,
    {
        proof {
            use_type_invariant(&self);
        }
        self.0 as usize
    }

    /// Converts the row to a person row, or fails for the camp row.
    pub fn to_person_index(self) -> (r: Result<PersonRowIndex, ()>)
        ensures
            self.index() < 3,
            match r {
                Ok(p) => self.index() != 0 && p.index() + 1 == self.index(),
                Err(()) => self.index() == 0,
            },
    {
        proof {
            use_type_invariant(&self);
        }
        if self.0 != 0 {
            Ok(PersonRowIndex(self.0 - 1))
        } else {
            Err(())
        }
    }

    /// Returns whether this is the camp row.
    pub fn is_camp(self) -> (r: bool)
        ensures
            r == (self.index() == 0),
    {
        self.0 == 0
    }

    /// Converts a person row to a card row.
    pub fn from_person_row(row: PersonRowIndex) -> (r: CardRowIndex)
        ensures
            r.index() == row.index() + 1,
    {
        row.to_card_row()
    }
}

/// A column index (0, 1, or 2) on a player's board.
#[derive(Debug, Clone, Copy, PartialEq, Eq, Structural, PartialOrd, Ord, Hash)]
pub struct ColumnIndex(u8);

impl ColumnIndex {
    #[verifier::type_invariant]
    spec fn inv(self) -> bool {
        self.0 < 3
    }

    /// The column as a mathematical index.
    pub closed spec fn index(self) -> nat {
        self.0 as nat
    }

    /// Columns with the same number are the same.
    pub proof fn lemma_index_injective(a: ColumnIndex, b: ColumnIndex)
        requires
            a.index() == b.index(),
        ensures
            a == b,
    {
    }

    /// Creates a column index from a raw column number.
    pub fn new(column: usize) -> (r: ColumnIndex)
        requires
            column < 3,
        ensures
            r.index() == column,
    {
        ColumnIndex(column as u8)
    }

    /// Returns the column number.
    pub fn as_usize(self) -> (r: usize)
        ensures
            r == self.index(),
            r < 3,
    {
        proof {
            use_type_invariant(&self);
        }
        self.0 as usize
    }
}

/// Enum for specifying a particular player.
#[derive(Debug, Clone, Copy, PartialEq, Eq, Structural, Hash)]
pub enum Player {
    /// Player 1.
    Player1,
    /// Player 2.
    Player2,
}

impl Player {
    /// The other player, as a specification.
    pub open spec fn spec_other(self) -> Player {
        match self {
            Player::Player1 => Player::Player2,
            Player::Player2 => Player::Player1,
        }
    }

    /// Returns the other player.
    pub fn other(self) -> (r: Player)
        ensures
            r == self.spec_other(),
    {
        match self {
            Player::Player1 => Player::Player2,
            Player::Player2 => Player::Player1,
        }
    }

    /// Returns the player's number.
    pub fn number(self) -> (r: u8)
        ensures
            r == (match self {
                Player::Player1 => 1u8,
                Player::Player2 => 2u8,
            }),
    {
        match self {
            Player::Player1 => 1,
            Player::Player2 => 2,
        }
    }

    /// Maps a fair coin flip to a player (heads is player 1).
    pub fn from_coin(heads: bool) -> (r: Player)
        ensures
            r == (if heads { Player::Player1 } else { Player::Player2 }),
    {
        if heads {
            Player::Player1
        } else {
            Player::Player2
        }
    }
}

/// A location at which to play a person onto the board.
#[derive(Debug, Clone, Copy, PartialEq, Eq, Structural)]
pub struct PlayLocation {
    /// The column to play the person into (0, 1, or 2).
    column: ColumnIndex,
    /// The row to play the person into (0 or 1).
    row: PersonRowIndex,
}

impl PlayLocation {
    /// Play locations with the same column and row are the same.
    pub proof fn lemma_index_injective(a: PlayLocation, b: PlayLocation)
        requires
            a.spec_column().index() == b.spec_column().index(),
            a.spec_row().index() == b.spec_row().index(),
        ensures
            a == b,
    {
        ColumnIndex::lemma_index_injective(a.column, b.column);
        PersonRowIndex::lemma_index_injective(a.row, b.row);
    }

    pub closed spec fn spec_column(self) -> ColumnIndex {
        self.column
    }

    pub closed spec fn spec_row(self) -> PersonRowIndex {
        self.row
    }

    /// Creates a new PlayLocation.
    pub fn new(column: ColumnIndex, row: PersonRowIndex) -> (r: PlayLocation)
        ensures
            r.spec_column() == column,
            r.spec_row() == row,
    {
        Self { column, row }
    }

    /// Returns the column.
    pub fn column(&self) -> (r: ColumnIndex)
        ensures
            r == self.spec_column(),
    {
        self.column
    }

    /// Returns the row.
    pub fn row(&self) -> (r: PersonRowIndex)
        ensures
            r == self.spec_row(),
    {
        self.row
    }

    /// Converts the location to a location on the specified player's board.
    pub fn for_player(&self, player: Player) -> (r: CardLocation)
        ensures
            r.spec_column() == self.spec_column(),
            r.spec_row().index() == self.spec_row().index() + 1,
            r.spec_player() == player,
    {
        CardLocation::new(self.column, self.row.to_card_row(), player)
    }

    /// Converts the location to a location within a player's board.
    pub fn to_player_card_location(&self) -> (r: PlayerCardLocation)
        ensures
            r.spec_column() == self.spec_column(),
            r.spec_row().index() == self.spec_row().index() + 1,
    {
        PlayerCardLocation::new(self.column, self.row.to_card_row())
    }
}

/// A location of a card (camp or person) on a specified player's board.
#[derive(Debug, Clone, Copy, PartialEq, Eq, Structural, Hash)]
pub struct CardLocation {
    /// The column of the card (0, 1, or 2).
    column: ColumnIndex,
    /// The row of the card (0 (camp), 1, or 2).
    row: CardRowIndex,
    /// The player whose board the card is on.
    player: Player,
}

impl CardLocation {
    pub closed spec fn spec_column(self) -> ColumnIndex {
        self.column
    }

    pub closed spec fn spec_row(self) -> CardRowIndex {
        self.row
    }

    pub closed spec fn spec_player(self) -> Player {
        self.player
    }

    /// Locations with the same column, row and player are the same.
    pub proof fn lemma_parts_injective(a: CardLocation, b: CardLocation)
        requires
            a.spec_column() == b.spec_column(),
            a.spec_row() == b.spec_row(),
            a.spec_player() == b.spec_player(),
        ensures
            a == b,
    {
    }

    /// Creates a new CardLocation.
    pub fn new(column: ColumnIndex, row: CardRowIndex, player: Player) -> (r: CardLocation)
        ensures
            r.spec_column() == column,
            r.spec_row() == row,
            r.spec_player() == player,
    {
        Self { column, row, player }
    }

    /// Returns the column.
    pub fn column(&self) -> (r: ColumnIndex)
        ensures
            r == self.spec_column(),
    {
        self.column
    }

    /// Returns the row.
    pub fn row(&self) -> (r: CardRowIndex)
        ensures
            r == self.spec_row(),
    {
        self.row
    }

    /// Returns the player whose board the card is on.
    pub fn player(&self) -> (r: Player)
        ensures
            r == self.spec_player(),
    {
        self.player
    }

    /// The location within the board, as a specification.
    pub closed spec fn spec_player_loc(self) -> PlayerCardLocation {
        PlayerCardLocation { column: self.column, row: self.row }
    }

    /// Converts the location to a PlayerCardLocation by removing the player field.
    pub fn player_loc(self) -> (r: PlayerCardLocation)
        ensures
            r == self.spec_player_loc(),
            r.spec_column() == self.spec_column(),
            r.spec_row() == self.spec_row(),
    {
        PlayerCardLocation::new(self.column, self.row)
    }
}

/// A location of a card (camp or person) within a player's board.
#[derive(Debug, Clone, Copy, PartialEq, Eq, Structural, Hash)]
pub struct PlayerCardLocation {
    /// The column of the card (0, 1, or 2).
    column: ColumnIndex,
    /// The row of the card (0 (camp), 1, or 2).
    row: CardRowIndex,
}

impl PlayerCardLocation {
    pub closed spec fn spec_column(self) -> ColumnIndex {
        self.column
    }

    pub closed spec fn spec_row(self) -> CardRowIndex {
        self.row
    }

    /// Locations with the same column and row are the same.
    pub proof fn lemma_parts_injective(a: PlayerCardLocation, b: PlayerCardLocation)
        requires
            a.spec_column() == b.spec_column(),
            a.spec_row() == b.spec_row(),
        ensures
            a == b,
    {
    }

    /// Creates a new PlayerCardLocation.
    pub fn new(column: ColumnIndex, row: CardRowIndex) -> (r: PlayerCardLocation)
        ensures
            r.spec_column() == column,
            r.spec_row() == row,
    {
        Self { column, row }
    }

    /// Returns the column.
    pub fn column(&self) -> (r: ColumnIndex)
        ensures
            r == self.spec_column(),
    {
        self.column
    }

    /// Returns the row.
    pub fn row(&self) -> (r: CardRowIndex)
        ensures
            r == self.spec_row(),
    {
        self.row
    }

    /// The location on the given player's board, as a specification.
    pub closed spec fn spec_for_player(self, player: Player) -> CardLocation {
        CardLocation { column: self.column, row: self.row, player }
    }

    /// Converts the location to a location on the specified player's board.
    pub fn for_player(&self, player: Player) -> (r: CardLocation)
        ensures
            r == self.spec_for_player(player),
            r.spec_column() == self.spec_column(),
            r.spec_row() == self.spec_row(),
            r.spec_player() == player,
    {
        CardLocation::new(self.column, self.row, player)
    }
}

/// Attaching a player to a location within a board and then dropping it again gives back the
/// same location, and dropping the player from a location on a board and attaching that same
/// player again gives back the same location.
pub proof fn lemma_location_round_trip(loc: PlayerCardLocation, full: CardLocation, player: Player)
    ensures
        loc.spec_for_player(player).spec_player_loc() == loc,
        full.spec_player_loc().spec_for_player(full.spec_player()) == full,
{
}

/// The other player of the other player is the player itself, and no player is their own
/// opponent.
pub proof fn lemma_other_involution(p: Player)
    ensures
        p.spec_other().spec_other() == p,
        p.spec_other() != p,
{
}

} // verus!
