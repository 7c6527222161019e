//! Valhalla tile identifiers, their paths on a tile server, and the encodings
//! in which a tile can be requested.

use vstd::prelude::*;

use crate::text;
use crate::text::{decimal_text, padded_text, same_text};

verus! {

/// An HTTP content coding that a tile can be requested in.
#[derive(Debug, Clone, Copy, PartialEq, Eq, Hash, Structural)]
pub enum Encoding {
    Identity,
    Gzip,
    Zstd,
}

impl Encoding {
    /// The name of the encoding, in requests to this service as well as in HTTP
    /// headers.
    pub open spec fn name(self) -> Seq<char> {
        match self {
            Encoding::Identity => "identity"@,
            Encoding::Gzip => "gzip"@,
            Encoding::Zstd => "zstd"@,
        }
    }

    /// The value for an `Accept-Encoding` header that asks for this encoding.
    pub fn as_header_value(self) -> (value: &'static str)
        ensures
            value@ == self.name(),
            self == Encoding::Identity ==> value@ == "identity"@,
            self == Encoding::Gzip ==> value@ == "gzip"@,
            self == Encoding::Zstd ==> value@ == "zstd"@,
    {
        match self {
            Encoding::Identity => "identity",
            Encoding::Gzip => "gzip",
            Encoding::Zstd => "zstd",
        }
    }

    /// The encoding of the given name. Names are lower case; any other string
    /// names no encoding.
    pub fn from_name(name: &str) -> (encoding: Option<Encoding>)
        ensures
            forall|e: Encoding| encoding == Some(e) <==> name@ == #[trigger] e.name(),
            encoding == Some(Encoding::Identity) <==> name@ == "identity"@,
            encoding == Some(Encoding::Gzip) <==> name@ == "gzip"@,
            encoding == Some(Encoding::Zstd) <==> name@ == "zstd"@,
    {
        proof {
            assert forall|a: Encoding, b: Encoding|
                #[trigger] a.name() == #[trigger] b.name() implies a == b by {
                lemma_names_distinct(a, b);
            }
            let known = (Encoding::Identity.name(), Encoding::Gzip.name(), Encoding::Zstd.name());
            assert(known == ("identity"@, "gzip"@, "zstd"@));
        }
        if same_text(name, "identity") {
            Some(Encoding::Identity)
        } else if same_text(name, "gzip") {
            Some(Encoding::Gzip)
        } else if same_text(name, "zstd") {
            Some(Encoding::Zstd)
        } else {
            None
        }
    }
}

/// The encodings are named as HTTP's registry of content codings names them.
pub proof fn lemma_registered_names()
    ensures
        Encoding::Identity.name() == "identity"@,
        Encoding::Gzip.name() == "gzip"@,
        Encoding::Zstd.name() == "zstd"@,
{
}

/// Distinct encodings have distinct names, so a name stands for one encoding.
pub proof fn lemma_names_distinct(a: Encoding, b: Encoding)
    requires
        a.name() == b.name(),
    ensures
        a == b,
{
    reveal_strlit("identity");
    reveal_strlit("gzip");
    reveal_strlit("zstd");
    assert("gzip"@[0] != "zstd"@[0]);
}

/// The largest tile id of each level. Valhalla's grids are 90 x 45 tiles of 4
/// degrees (level 0, highway), 360 x 180 tiles of 1 degree (level 1, arterial) and
/// 1440 x 720 tiles of a quarter degree (level 2, local). Ids count the tiles row
/// by row, so the largest id is `columns * rows - 1`. These are constants of
/// Valhalla's tile format, not configuration.
pub const MAX_TILE_IDS: [u32; 3] = [90 * 45 - 1, 360 * 180 - 1, 1440 * 720 - 1];

/// A tile: its level in the hierarchy and its id in the grid of that level.
#[derive(Debug, Clone, Copy, PartialEq, Eq, Hash, Structural)]
pub struct TileId {
    pub level: u8,
    pub id: u32,
}

/// Why a `TileId` names no tile.
#[derive(Debug, PartialEq, Eq)]
pub enum TileIdError {
    InvalidLevel { level: u8 },
    IdOutOfRange { level: u8, id: u32, max: u32 },
}

impl TileIdError {
    /// The text of the error.
    pub open spec fn text(self) -> Seq<char> {
        match self {
            TileIdError::InvalidLevel { level } => "invalid level "@ + text::decimal(level as nat)
                + ", expected 0, 1, or 2"@,
            TileIdError::IdOutOfRange { level, id, max } => "tile id "@ + text::decimal(id as nat)
                + " out of range for level "@ + text::decimal(level as nat) + " (max "@
                + text::decimal(max as nat) + ")"@,
        }
    }

    /// The text of the error.
    pub fn message(&self) -> (text: String)
        ensures
            text@ == self.text(),
            self matches TileIdError::InvalidLevel { level } ==> text@ == "invalid level "@
                + text::decimal(*level as nat) + ", expected 0, 1, or 2"@,
            self matches TileIdError::IdOutOfRange { level, id, max } ==> text@ == "tile id "@
                + text::decimal(*id as nat) + " out of range for level "@ + text::decimal(
                *level as nat,
            ) + " (max "@ + text::decimal(*max as nat) + ")"@,
    {
        let mut text = String::new();
        match self {
            TileIdError::InvalidLevel { level } => {
                text.append("invalid level ");
                text.append(decimal_text(*level as u64).as_str());
                text.append(", expected 0, 1, or 2");
            },
            TileIdError::IdOutOfRange { level, id, max } => {
                text.append("tile id ");
                text.append(decimal_text(*id as u64).as_str());
                text.append(" out of range for level ");
                text.append(decimal_text(*level as u64).as_str());
                text.append(" (max ");
                text.append(decimal_text(*max as u64).as_str());
                text.append(")");
            },
        }
        assert(text@ =~= self.text());
        text
    }
}

/// Columns and rows of the grid of a level, for the levels that exist.
pub open spec fn grid(level: u8) -> Option<(nat, nat)> {
    if level == 0 {
        Some((90, 45))
    } else if level == 1 {
        Some((360, 180))
    } else if level == 2 {
        Some((1440, 720))
    } else {
        None
    }
}

/// The largest id on a level, for the levels that exist.
pub open spec fn max_id(level: u8) -> Option<u32> {
    if level == 0 {
        Some(4_049)
    } else if level == 1 {
        Some(64_799)
    } else if level == 2 {
        Some(1_036_799)
    } else {
        None
    }
}

impl TileId {
    /// What is wrong with the tile, or `None` if it exists.
    pub open spec fn error(self) -> Option<TileIdError> {
        match max_id(self.level) {
            None => Some(TileIdError::InvalidLevel { level: self.level }),
            Some(max) => if self.id <= max {
                None
            } else {
                Some(TileIdError::IdOutOfRange { level: self.level, id: self.id, max })
            },
        }
    }

    /// The tile exists: its id lies in the grid of its level.
    pub open spec fn valid(self) -> bool {
        self.error() is None
    }

    /// Where the tile lies below the root of a tile directory: the level, then the id
    /// split into thousands and the rest, each in at least three digits.
    pub open spec fn path(self) -> Seq<char> {
        text::decimal(self.level as nat) + "/"@ + text::padded((self.id / 1000) as nat, 3) + "/"@
            + text::padded((self.id % 1000) as nat, 3) + ".gph"@
    }

    /// The path of the tile below the root of a tile directory.
    pub fn to_path(self) -> (path: String)
        ensures
            path@ == self.path(),
    {
        let dir: u32 = self.id / 1000;
        let file: u32 = self.id % 1000;
        let mut path = decimal_text(self.level as u64);
        path.append("/");
        path.append(padded_text(dir as u64, 3).as_str());
        path.append("/");
        path.append(padded_text(file as u64, 3).as_str());
        path.append(".gph");
        path
    }

    /// Checks that the level exists and that the id lies in its grid.
    pub fn validate(self) -> (result: Result<(), TileIdError>)
        ensures
            match result {
                Ok(()) => self.valid(),
                Err(e) => self.error() == Some(e),
            },
            result is Ok <==> {
                ||| self.level == 0 && self.id < 90 * 45
                ||| self.level == 1 && self.id < 360 * 180
                ||| self.level == 2 && self.id < 1440 * 720
            },
            result matches Err(TileIdError::InvalidLevel { level }) ==> level == self.level
                && level > 2,
            result matches Err(TileIdError::IdOutOfRange { level, id, max }) ==> {
                &&& level == self.level && level <= 2
                &&& id == self.id && id > max
                &&& level == 0 ==> max == 90 * 45 - 1
                &&& level == 1 ==> max == 360 * 180 - 1
                &&& level == 2 ==> max == 1440 * 720 - 1
            },
    {
        if self.level as usize >= MAX_TILE_IDS.len() {
            return Err(TileIdError::InvalidLevel { level: self.level });
        }
        let max: u32 = MAX_TILE_IDS[self.level as usize];
        if self.id > max {
            return Err(TileIdError::IdOutOfRange { level: self.level, id: self.id, max });
        }
        Ok(())
    }
}

/// On each of the three levels, the tiles are those whose id is below the number of
/// tiles in the grid, and there are no other levels. An id that is too large is
/// reported with the largest one that is not.
pub proof fn lemma_valid_ids(tile: TileId)
    ensures
        tile.valid() <==> {
            ||| tile.level == 0 && tile.id < 90 * 45
            ||| tile.level == 1 && tile.id < 360 * 180
            ||| tile.level == 2 && tile.id < 1440 * 720
        },
        tile.level > 2 <==> tile.error() == Some(TileIdError::InvalidLevel { level: tile.level }),
        tile.level <= 2 && !tile.valid() ==> {
            &&& tile.error() matches Some(TileIdError::IdOutOfRange { level, id, max })
            &&& level == tile.level
            &&& id == tile.id
            &&& (TileId { level, id: max }).valid()
            &&& !(TileId { level, id: (max + 1) as u32 }).valid()
        },
{
}

/// What the text of each error says.
pub proof fn lemma_tile_error_texts(level: u8, id: u32, max: u32)
    ensures
        (TileIdError::InvalidLevel { level }).text() == "invalid level "@ + text::decimal(
            level as nat,
        ) + ", expected 0, 1, or 2"@,
        (TileIdError::IdOutOfRange { level, id, max }).text() == "tile id "@ + text::decimal(
            id as nat,
        ) + " out of range for level "@ + text::decimal(level as nat) + " (max "@ + text::decimal(
            max as nat,
        ) + ")"@,
{
}

/// `tile` is the tile in the given row and column of its level's grid, ids being
/// counted row by row.
pub open spec fn is_cell(tile: TileId, row: nat, column: nat) -> bool {
    match grid(tile.level) {
        Some((columns, rows)) => {
            &&& row < rows
            &&& column < columns
            &&& tile.id == row * columns + column
        },
        None => false,
    }
}

/// The valid tiles are exactly the cells of the grids.
pub proof fn lemma_valid_iff_cell(tile: TileId)
    ensures
        tile.valid() <==> exists|row: nat, column: nat| is_cell(tile, row, column),
{
    if let Some((columns, rows)) = grid(tile.level) {
        if tile.valid() {
            let row = tile.id as nat / columns;
            let column = tile.id as nat % columns;
            vstd::arithmetic::div_mod::lemma_fundamental_div_mod(tile.id as int, columns as int);
            assert(tile.id == row * columns + column) by (nonlinear_arith)
                requires
                    tile.id == columns * row + column,
            ;
            assert(row < rows) by (nonlinear_arith)
                requires
                    tile.id < columns * rows,
                    tile.id == row * columns + column,
                    column >= 0,
                    columns > 0,
            ;
            assert(is_cell(tile, row, column));
        }
        if exists|row: nat, column: nat| is_cell(tile, row, column) {
            let (row, column) = choose|row: nat, column: nat| is_cell(tile, row, column);
            assert(row * columns + column < columns * rows) by (nonlinear_arith)
                requires
                    row < rows,
                    column < columns,
            ;
        }
    }
}

/// Where a separator first occurs decides how a sequence is cut there.
proof fn lemma_cut_at_separator(a1: Seq<char>, b1: Seq<char>, a2: Seq<char>, b2: Seq<char>, c: char)
    requires
        a1.push(c) + b1 == a2.push(c) + b2,
        !a1.contains(c),
        !a2.contains(c),
    ensures
        a1 == a2,
        b1 == b2,
{
    let whole1 = a1.push(c) + b1;
    let whole2 = a2.push(c) + b2;
    assert(whole1[a1.len() as int] == c);
    assert(whole2[a2.len() as int] == c);
    if a1.len() < a2.len() {
        assert(a2[a1.len() as int] == whole2[a1.len() as int]);
        assert(a2.contains(c));
    } else if a2.len() < a1.len() {
        assert(a1[a2.len() as int] == whole1[a2.len() as int]);
        assert(a1.contains(c));
    }
    assert forall|i: int| 0 <= i < a1.len() implies a1[i] == a2[i] by {
        assert(whole1[i] == a1[i]);
        assert(whole2[i] == a2[i]);
    }
    assert(a1 =~= a2);
    assert(b1 =~= whole1.skip(a1.len() as int + 1));
    assert(b2 =~= whole2.skip(a2.len() as int + 1));
}

/// A path consists of three numerals, with a slash after the first and the second and
/// `.gph` after the third. They are the level, the thousands of the id and the rest of
/// it, and the last two have three characters where that is enough.
pub proof fn lemma_path_shape(tile: TileId)
    ensures
        exists|level: Seq<char>, dir: Seq<char>, file: Seq<char>| #[trigger]
            is_path_of(level, dir, file, tile),
{
    let level = text::decimal(tile.level as nat);
    let dir = text::padded((tile.id / 1000) as nat, 3);
    let file = text::padded((tile.id % 1000) as nat, 3);
    text::lemma_decimal_reads_back(tile.level as nat);
    text::lemma_padded_reads_back((tile.id / 1000) as nat, 3);
    text::lemma_padded_reads_back((tile.id % 1000) as nat, 3);
    text::lemma_decimal_by_digit(tile.level as nat);
    text::lemma_decimal_by_digit((tile.id / 1000) as nat);
    lemma_decimal_len((tile.id / 1000) as nat);
    lemma_decimal_len((tile.id % 1000) as nat);
    assert(is_path_of(level, dir, file, tile));
}

/// A numeral has at most three digits exactly for numbers below a thousand.
proof fn lemma_decimal_len(n: nat)
    ensures
        n < 1000 <==> text::decimal(n).len() <= 3,
{
    text::lemma_decimal_by_digit(n);
    text::lemma_decimal_by_digit(n / 10);
    text::lemma_decimal_by_digit(n / 10 / 10);
    text::lemma_decimal_by_digit(n / 10 / 10 / 10);
}

/// The path of `tile` is made of these three numerals.
pub open spec fn is_path_of(
    level: Seq<char>,
    dir: Seq<char>,
    file: Seq<char>,
    tile: TileId,
) -> bool {
    &&& tile.path() == level + "/"@ + dir + "/"@ + file + ".gph"@
    &&& forall|i: int| 0 <= i < level.len() ==> '0' <= #[trigger] level[i] <= '9'
    &&& forall|i: int| 0 <= i < dir.len() ==> '0' <= #[trigger] dir[i] <= '9'
    &&& forall|i: int| 0 <= i < file.len() ==> '0' <= #[trigger] file[i] <= '9'
    &&& text::numeral(level) == tile.level
    &&& level.len() > 1 ==> level[0] != '0'
    &&& text::numeral(dir) * 1000 + text::numeral(file) == tile.id
    &&& text::numeral(file) < 1000
    &&& dir.len() >= 3
    &&& dir.len() == 3 <==> tile.id < 1_000_000
    &&& dir.len() > 3 ==> dir[0] != '0'
    &&& file.len() == 3
}

/// The three numbers of a path, set apart from each other and read back.
proof fn lemma_path_parts(tile: TileId)
    ensures
        ({
            let level = text::decimal(tile.level as nat);
            let dir = text::padded((tile.id / 1000) as nat, 3);
            let file = text::padded((tile.id % 1000) as nat, 3);
            &&& tile.path() == level.push('/') + (dir.push('/') + (file + ".gph"@))
            &&& !level.contains('/') && text::numeral(level) == tile.level
            &&& !dir.contains('/') && text::numeral(dir) == tile.id / 1000
            &&& text::numeral(file) == tile.id % 1000
        }),
{
    reveal_strlit("/");
    let level = text::decimal(tile.level as nat);
    let dir = text::padded((tile.id / 1000) as nat, 3);
    let file = text::padded((tile.id % 1000) as nat, 3);
    text::lemma_decimal_reads_back(tile.level as nat);
    text::lemma_padded_reads_back((tile.id / 1000) as nat, 3);
    text::lemma_padded_reads_back((tile.id % 1000) as nat, 3);
    assert("/"@ =~= seq!['/']);
    assert(tile.path() =~= level.push('/') + (dir.push('/') + (file + ".gph"@)));
}

/// Different tiles lie under different paths.
pub proof fn lemma_path_injective(a: TileId, b: TileId)
    requires
        a.path() == b.path(),
    ensures
        a == b,
{
    let (level_a, level_b) = (text::decimal(a.level as nat), text::decimal(b.level as nat));
    let dir_a = text::padded((a.id / 1000) as nat, 3);
    let dir_b = text::padded((b.id / 1000) as nat, 3);
    let file_a = text::padded((a.id % 1000) as nat, 3);
    let file_b = text::padded((b.id % 1000) as nat, 3);
    lemma_path_parts(a);
    lemma_path_parts(b);
    lemma_cut_at_separator(
        level_a,
        dir_a.push('/') + (file_a + ".gph"@),
        level_b,
        dir_b.push('/') + (file_b + ".gph"@),
        '/',
    );
    lemma_cut_at_separator(dir_a, file_a + ".gph"@, dir_b, file_b + ".gph"@, '/');
    assert(file_a == file_b) by {
        assert(file_a.len() == file_b.len());
        assert(file_a =~= (file_a + ".gph"@).take(file_a.len() as int));
        assert(file_b =~= (file_b + ".gph"@).take(file_b.len() as int));
    }
    assert(a.id / 1000 == b.id / 1000 && a.id % 1000 == b.id % 1000);
}

} // verus!
