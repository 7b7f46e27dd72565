//! Tiles and the standard 136-tile set.

use vstd::prelude::*;

use crate::models::faces::{face_count, id_count, shows, unique_ids};
use crate::models::wall::standard_set;
use crate::text::{decimal, decimal_string};

verus! {

#[derive(Clone, Copy, Debug, PartialEq, Eq, Hash, Structural)]
pub enum TileSuit {
    Manzu,
    Pinzu,
    Souzu,
    Wind,
    Dragon,
}

#[derive(Clone, Copy, Debug, PartialEq, Eq, Hash, Structural)]
pub enum Wind {
    East,
    South,
    West,
    North,
}

#[derive(Clone, Copy, Debug, PartialEq, Eq, Hash, Structural)]
pub enum Dragon {
    White,
    Green,
    Red,
}

#[derive(Clone, Copy, Debug, PartialEq, Eq, Hash, Structural)]
pub struct Tile {
    pub suit: TileSuit,
    pub rank: u8,
    pub id: u32,
    pub is_red: bool,
    pub buff_fu: i32,
    pub buff_mult: i32,
}

/// Manzu, Pinzu and Souzu are the numbered suits; Wind and Dragon are honors.
pub open spec fn numbered(suit: TileSuit) -> bool {
    suit == TileSuit::Manzu || suit == TileSuit::Pinzu || suit == TileSuit::Souzu
}

/// Whether `suit` is a numbered suit.
pub fn is_numbered_suit(suit: TileSuit) -> (b: bool)
    ensures
        b == numbered(suit),
{
    match suit {
        TileSuit::Manzu | TileSuit::Pinzu | TileSuit::Souzu => true,
        _ => false,
    }
}

/// A rank that names an existing face in its suit: 1-9 for numbered
/// suits, 1-4 for winds, 1-3 for dragons.
pub open spec fn face_exists(suit: TileSuit, rank: u8) -> bool {
    match suit {
        TileSuit::Wind => 1 <= rank <= 4,
        TileSuit::Dragon => 1 <= rank <= 3,
        _ => 1 <= rank <= 9,
    }
}

pub open spec fn zh_digit(rank: u8) -> char {
    if rank == 1 { '一' }
    else if rank == 2 { '二' }
    else if rank == 3 { '三' }
    else if rank == 4 { '四' }
    else if rank == 5 { '五' }
    else if rank == 6 { '六' }
    else if rank == 7 { '七' }
    else if rank == 8 { '八' }
    else { '九' }
}

pub open spec fn zh_wind(rank: u8) -> char {
    if rank == 1 { '东' } else if rank == 2 { '南' } else if rank == 3 { '西' } else { '北' }
}

pub open spec fn zh_dragon(rank: u8) -> char {
    if rank == 1 { '白' } else if rank == 2 { '發' } else { '中' }
}

impl Tile {
    /// Terminal (1 or 9 of a numbered suit) or honor (wind, dragon).
    pub open spec fn terminal_or_honor(self) -> bool {
        if numbered(self.suit) { self.rank == 1 || self.rank == 9 } else { true }
    }

    /// A 2-8 tile of a numbered suit.
    pub open spec fn simple(self) -> bool {
        numbered(self.suit) && 2 <= self.rank <= 8
    }

    /// Same face: same suit and rank, whatever the id and buffs.
    pub open spec fn same_kind(self, other: Tile) -> bool {
        self.suit == other.suit && self.rank == other.rank
    }

    /// Intrinsic fu of a tile.
    pub open spec fn fu(self) -> u64 {
        match self.suit {
            TileSuit::Wind => 8,
            TileSuit::Dragon => 10,
            _ => if self.rank == 1 || self.rank == 9 { 6 } else { 3 },
        }
    }

    /// The Chinese name of the face.
    pub open spec fn zh_name(self) -> Seq<char> {
        match self.suit {
            TileSuit::Manzu => seq![zh_digit(self.rank), '万'],
            TileSuit::Pinzu => seq![zh_digit(self.rank), '筒'],
            TileSuit::Souzu => seq![zh_digit(self.rank), '索'],
            TileSuit::Wind => seq![zh_wind(self.rank)],
            TileSuit::Dragon => seq![zh_dragon(self.rank)],
        }
    }

    /// The short Latin name of the face, such as `5m` or `Wh`.
    pub open spec fn short_name(self) -> Seq<char> {
        match self.suit {
            TileSuit::Manzu => decimal(self.rank as nat).push('m'),
            TileSuit::Pinzu => decimal(self.rank as nat).push('p'),
            TileSuit::Souzu => decimal(self.rank as nat).push('s'),
            TileSuit::Wind => if self.rank == 1 {
                seq!['E']
            } else if self.rank == 2 {
                seq!['S']
            } else if self.rank == 3 {
                seq!['W']
            } else {
                seq!['N']
            },
            TileSuit::Dragon => if self.rank == 1 {
                seq!['W', 'h']
            } else if self.rank == 2 {
                seq!['G']
            } else {
                seq!['R']
            },
        }
    }

    pub fn new(suit: TileSuit, rank: u8, id: u32) -> (t: Self)
        ensures
            t == (Tile { suit, rank, id, is_red: false, buff_fu: 0, buff_mult: 0 }),
    {
        Tile { suit, rank, id, is_red: false, buff_fu: 0, buff_mult: 0 }
    }

    pub fn with_red(self) -> (t: Self)
        ensures
            t == (Tile { is_red: true, ..self }),
    {
        let mut t = self;
        t.is_red = true;
        t
    }

    /// Intrinsic fu value for scoring.
    pub fn base_fu(&self) -> (f: u64)
        ensures
            f == self.fu(),
    {
        match self.suit {
            TileSuit::Manzu | TileSuit::Pinzu | TileSuit::Souzu => {
                if self.rank == 1 || self.rank == 9 {
                    6
                } else {
                    3
                }
            },
            TileSuit::Wind => 8,
            TileSuit::Dragon => 10,
        }
    }

    /// The Chinese name of the tile, such as `五万` or `發`.
    pub fn display_zh(&self) -> (s: String)
        requires
            face_exists(self.suit, self.rank),
        ensures
            s@ == self.zh_name(),
    {
        match self.suit {
            TileSuit::Manzu => {
                let mut s = String::from_str(zh_digit_str(self.rank));
                proof { reveal_strlit("万"); }
                s.append("万");
                s
            },
            TileSuit::Pinzu => {
                let mut s = String::from_str(zh_digit_str(self.rank));
                proof { reveal_strlit("筒"); }
                s.append("筒");
                s
            },
            TileSuit::Souzu => {
                let mut s = String::from_str(zh_digit_str(self.rank));
                proof { reveal_strlit("索"); }
                s.append("索");
                s
            },
            TileSuit::Wind => {
                if self.rank == 1 {
                    proof { reveal_strlit("东"); }
                    String::from_str("东")
                } else if self.rank == 2 {
                    proof { reveal_strlit("南"); }
                    String::from_str("南")
                } else if self.rank == 3 {
                    proof { reveal_strlit("西"); }
                    String::from_str("西")
                } else {
                    proof { reveal_strlit("北"); }
                    String::from_str("北")
                }
            },
            TileSuit::Dragon => {
                if self.rank == 1 {
                    proof { reveal_strlit("白"); }
                    String::from_str("白")
                } else if self.rank == 2 {
                    proof { reveal_strlit("發"); }
                    String::from_str("發")
                } else {
                    proof { reveal_strlit("中"); }
                    String::from_str("中")
                }
            },
        }
    }

    /// The short name of the tile: rank and suit letter for numbered
    /// suits (`5m`, `1p`, `9s`), `E`/`S`/`W`/`N` for winds and
    /// `Wh`/`G`/`R` for dragons.
    pub fn display_short(&self) -> (s: String)
        requires
            self.suit == TileSuit::Wind ==> 1 <= self.rank <= 4,
            self.suit == TileSuit::Dragon ==> 1 <= self.rank <= 3,
        ensures
            s@ == self.short_name(),
    {
        match self.suit {
            TileSuit::Manzu => {
                let mut s = decimal_string(self.rank as u64);
                proof { reveal_strlit("m"); }
                s.append("m");
                s
            },
            TileSuit::Pinzu => {
                let mut s = decimal_string(self.rank as u64);
                proof { reveal_strlit("p"); }
                s.append("p");
                s
            },
            TileSuit::Souzu => {
                let mut s = decimal_string(self.rank as u64);
                proof { reveal_strlit("s"); }
                s.append("s");
                s
            },
            TileSuit::Wind => {
                if self.rank == 1 {
                    proof { reveal_strlit("E"); }
                    String::from_str("E")
                } else if self.rank == 2 {
                    proof { reveal_strlit("S"); }
                    String::from_str("S")
                } else if self.rank == 3 {
                    proof { reveal_strlit("W"); }
                    String::from_str("W")
                } else {
                    proof { reveal_strlit("N"); }
                    String::from_str("N")
                }
            },
            TileSuit::Dragon => {
                if self.rank == 1 {
                    proof { reveal_strlit("Wh"); }
                    String::from_str("Wh")
                } else if self.rank == 2 {
                    proof { reveal_strlit("G"); }
                    String::from_str("G")
                } else {
                    proof { reveal_strlit("R"); }
                    String::from_str("R")
                }
            },
        }
    }

    /// Is this a terminal (1 or 9) or honor (wind/dragon) tile?
    pub fn is_terminal_or_honor(&self) -> (b: bool)
        ensures
            b == self.terminal_or_honor(),
    {
        match self.suit {
            TileSuit::Manzu | TileSuit::Pinzu | TileSuit::Souzu => self.rank == 1 || self.rank
                == 9,
            TileSuit::Wind | TileSuit::Dragon => true,
        }
    }

    /// Is this a simple tile (2-8 in a numbered suit)?
    pub fn is_simple(&self) -> (b: bool)
        ensures
            b == self.simple(),
    {
        is_numbered_suit(self.suit) && 2 <= self.rank && self.rank <= 8
    }

    /// Same tile type (ignoring id and buffs)?
    pub fn same_type(&self, other: &Tile) -> (b: bool)
        ensures
            b == self.same_kind(*other),
    {
        self.suit == other.suit && self.rank == other.rank
    }
}

fn zh_digit_str(rank: u8) -> (s: &'static str)
    requires
        1 <= rank <= 9,
    ensures
        s@ == seq![zh_digit(rank)],
{
    if rank == 1 {
        proof { reveal_strlit("一"); }
        "一"
    } else if rank == 2 {
        proof { reveal_strlit("二"); }
        "二"
    } else if rank == 3 {
        proof { reveal_strlit("三"); }
        "三"
    } else if rank == 4 {
        proof { reveal_strlit("四"); }
        "四"
    } else if rank == 5 {
        proof { reveal_strlit("五"); }
        "五"
    } else if rank == 6 {
        proof { reveal_strlit("六"); }
        "六"
    } else if rank == 7 {
        proof { reveal_strlit("七"); }
        "七"
    } else if rank == 8 {
        proof { reveal_strlit("八"); }
        "八"
    } else {
        proof { reveal_strlit("九"); }
        "九"
    }
}

/// The tile at position `i` of the standard set: 4 copies of each of
/// the 27 numbered faces (suit by suit, rank by rank), then 4 copies of
/// each wind, then of each dragon. The first copy of each 5 is red; the
/// id is the position.
pub open spec fn standard_tile(i: int) -> Tile {
    if i < 108 {
        let suit = if i < 36 {
            TileSuit::Manzu
        } else if i < 72 {
            TileSuit::Pinzu
        } else {
            TileSuit::Souzu
        };
        let rank = ((i % 36) / 4 + 1) as u8;
        Tile {
            suit,
            rank,
            id: i as u32,
            is_red: rank == 5 && i % 4 == 0,
            buff_fu: 0,
            buff_mult: 0,
        }
    } else if i < 124 {
        Tile {
            suit: TileSuit::Wind,
            rank: ((i - 108) / 4 + 1) as u8,
            id: i as u32,
            is_red: false,
            buff_fu: 0,
            buff_mult: 0,
        }
    } else {
        Tile {
            suit: TileSuit::Dragon,
            rank: ((i - 124) / 4 + 1) as u8,
            id: i as u32,
            is_red: false,
            buff_fu: 0,
            buff_mult: 0,
        }
    }
}

/// Generate the standard 136-tile set (34 faces x 4 copies, with one red
/// five in each numbered suit).
pub fn standard_tile_set() -> (tiles: Vec<Tile>)
    ensures
        tiles@.len() == 136,
        forall|i: int| 0 <= i < 136 ==> #[trigger] tiles@[i] == standard_tile(i),
        tiles@ == standard_set(),
{
    let mut tiles: Vec<Tile> = Vec::new();
    let mut id: u32 = 0;
    let suits = [TileSuit::Manzu, TileSuit::Pinzu, TileSuit::Souzu];
    let mut s: usize = 0;
    while s < 3
        invariant
            s <= 3,
            id == 36 * s,
            tiles@.len() == id,
            suits@ == seq![TileSuit::Manzu, TileSuit::Pinzu, TileSuit::Souzu],
            forall|i: int| 0 <= i < id ==> #[trigger] tiles@[i] == standard_tile(i),
        decreases 3 - s,
    {
        let suit = suits[s];
        let mut rank: u8 = 1;
        while rank <= 9
            invariant
                1 <= rank <= 10,
                s < 3,
                suit == suits@[s as int],
                suits@ == seq![TileSuit::Manzu, TileSuit::Pinzu, TileSuit::Souzu],
                id == 36 * s + 4 * (rank - 1),
                tiles@.len() == id,
                forall|i: int| 0 <= i < id ==> #[trigger] tiles@[i] == standard_tile(i),
            decreases 10 - rank,
        {
            let mut copy: u8 = 0;
            while copy < 4
                invariant
                    1 <= rank <= 9,
                    copy <= 4,
                    s < 3,
                    suit == suits@[s as int],
                    suits@ == seq![TileSuit::Manzu, TileSuit::Pinzu, TileSuit::Souzu],
                    id == 36 * s + 4 * (rank - 1) + copy,
                    tiles@.len() == id,
                    forall|i: int| 0 <= i < id ==> #[trigger] tiles@[i] == standard_tile(i),
                decreases 4 - copy,
            {
                let tile = if rank == 5 && copy == 0 {
                    Tile::new(suit, rank, id).with_red()
                } else {
                    Tile::new(suit, rank, id)
                };
                assert(tile == standard_tile(id as int));
                tiles.push(tile);
                id = id + 1;
                copy = copy + 1;
            }
            rank = rank + 1;
        }
        s = s + 1;
    }
    let mut rank: u8 = 1;
    while rank <= 4
        invariant
            1 <= rank <= 5,
            id == 108 + 4 * (rank - 1),
            tiles@.len() == id,
            forall|i: int| 0 <= i < id ==> #[trigger] tiles@[i] == standard_tile(i),
        decreases 5 - rank,
    {
        let mut copy: u8 = 0;
        while copy < 4
            invariant
                1 <= rank <= 4,
                copy <= 4,
                id == 108 + 4 * (rank - 1) + copy,
                tiles@.len() == id,
                forall|i: int| 0 <= i < id ==> #[trigger] tiles@[i] == standard_tile(i),
            decreases 4 - copy,
        {
            let tile = Tile::new(TileSuit::Wind, rank, id);
            assert(tile == standard_tile(id as int));
            tiles.push(tile);
            id = id + 1;
            copy = copy + 1;
        }
        rank = rank + 1;
    }
    let mut rank: u8 = 1;
    while rank <= 3
        invariant
            1 <= rank <= 4,
            id == 124 + 4 * (rank - 1),
            tiles@.len() == id,
            forall|i: int| 0 <= i < id ==> #[trigger] tiles@[i] == standard_tile(i),
        decreases 4 - rank,
    {
        let mut copy: u8 = 0;
        while copy < 4
            invariant
                1 <= rank <= 3,
                copy <= 4,
                id == 124 + 4 * (rank - 1) + copy,
                tiles@.len() == id,
                forall|i: int| 0 <= i < id ==> #[trigger] tiles@[i] == standard_tile(i),
            decreases 4 - copy,
        {
            let tile = Tile::new(TileSuit::Dragon, rank, id);
            assert(tile == standard_tile(id as int));
            tiles.push(tile);
            id = id + 1;
            copy = copy + 1;
        }
        rank = rank + 1;
    }
    assert(tiles@ =~= standard_set());
    tiles
}


/// The position of the first copy of a face in the standard set.
pub open spec fn face_base(suit: TileSuit, rank: u8) -> int {
    match suit {
        TileSuit::Manzu => (rank - 1) * 4,
        TileSuit::Pinzu => 36 + (rank - 1) * 4,
        TileSuit::Souzu => 72 + (rank - 1) * 4,
        TileSuit::Wind => 108 + (rank - 1) * 4,
        TileSuit::Dragon => 124 + (rank - 1) * 4,
    }
}

proof fn lemma_standard_tile_face(i: int, suit: TileSuit, rank: u8)
    requires
        0 <= i < 136,
    ensures
        face_exists(standard_tile(i).suit, standard_tile(i).rank),
        shows(standard_tile(i), suit, rank) <==> (face_exists(suit, rank) && face_base(suit, rank) <= i
            < face_base(suit, rank) + 4),
{
    if i < 36 {
        assert(i % 36 == i);
    } else if i < 72 {
        assert(i % 36 == i - 36);
    } else if i < 108 {
        assert(i % 36 == i - 72);
    }
}

proof fn lemma_standard_prefix_count(n: int, suit: TileSuit, rank: u8)
    requires
        0 <= n <= 136,
    ensures
        face_count(Seq::new(n as nat, |i: int| standard_tile(i)), suit, rank) == if face_exists(suit, rank) {
            let b = face_base(suit, rank);
            if n <= b {
                0
            } else if n >= b + 4 {
                4
            } else {
                n - b
            }
        } else {
            0
        },
    decreases n,
{
    if n > 0 {
        let s = Seq::new(n as nat, |i: int| standard_tile(i));
        assert(s.drop_last() =~= Seq::new((n - 1) as nat, |i: int| standard_tile(i)));
        lemma_standard_prefix_count(n - 1, suit, rank);
        lemma_standard_tile_face(n - 1, suit, rank);
    }
}

/// The standard set holds exactly 4 copies of each of the 34 faces (9
/// ranks of each numbered suit, 4 winds, 3 dragons) and no other face,
/// and its red tiles are the first copies of the three fives.
pub proof fn law_standard_set_faces(suit: TileSuit, rank: u8)
    ensures
        face_exists(suit, rank) ==> face_count(standard_set(), suit, rank) == 4,
        !face_exists(suit, rank) ==> face_count(standard_set(), suit, rank) == 0,
        forall|i: int|
            0 <= i < 136 ==> ((#[trigger] standard_set()[i]).is_red <==> (i == 16 || i == 52 || i
                == 88)),
{
    lemma_standard_prefix_count(136, suit, rank);
    assert forall|i: int| 0 <= i < 136 implies ((#[trigger] standard_set()[i]).is_red <==> (i == 16
        || i == 52 || i == 88)) by {
        if i < 36 {
            assert(i % 36 == i);
        } else if i < 72 {
            assert(i % 36 == i - 36);
        } else if i < 108 {
            assert(i % 36 == i - 72);
        }
    }
}

proof fn lemma_standard_prefix_ids(n: int, id: u32)
    requires
        0 <= n <= 136,
    ensures
        id_count(Seq::new(n as nat, |i: int| standard_tile(i)), id) == if id < n {
            1nat
        } else {
            0nat
        },
    decreases n,
{
    if n > 0 {
        let s = Seq::new(n as nat, |i: int| standard_tile(i));
        assert(s.drop_last() =~= Seq::new((n - 1) as nat, |i: int| standard_tile(i)));
        lemma_standard_prefix_ids(n - 1, id);
        assert(standard_tile(n - 1).id == n - 1);
    }
}

/// Every tile of the standard set carries its own id: its position.
pub proof fn law_standard_set_ids(id: u32)
    ensures
        forall|i: int| 0 <= i < 136 ==> (#[trigger] standard_set()[i]).id == i,
        id_count(standard_set(), id) == if id < 136 {
            1nat
        } else {
            0nat
        },
        unique_ids(standard_set()),
{
    lemma_standard_prefix_ids(136, id);
    assert forall|i: int| 0 <= i < 136 implies (#[trigger] standard_set()[i]).id == i by {}
    assert forall|x: u32| #[trigger] id_count(standard_set(), x) <= 1 by {
        lemma_standard_prefix_ids(136, x);
    }
}

} // verus!
