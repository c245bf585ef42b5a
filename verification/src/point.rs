use vstd::prelude::*;

verus! {

/// Why a record was rejected: each variant names the first check that failed.
#[derive(Clone, Copy, Debug, PartialEq, Eq, Structural)]
pub enum ParseError {
    /// The record is not exactly three characters long.
    MalformedRecord,
    /// The first character is not a letter `A`-`F` (case-insensitive).
    InvalidSymbol,
    /// The second character is not a digit `1`-`6`.
    InvalidSlot,
    /// The third character is not one of `R O Y G B I V ?` (case-insensitive).
    InvalidColor,
}

/// One decoded record: a symbol column (`A`-`F`), a time slot (1-6) and a
/// color code (one of `R O Y G B I V ?`), stored uppercased.
#[derive(Clone, Copy, Debug, PartialEq, Eq, Structural)]
pub struct Point {
    chr: char,
    num: u8,
    col: char,
}

/// Relies on String::push: appends the given character to the end of the string.
pub assume_specification[ String::push ](s: &mut String, ch: char)
    ensures
        final(s)@ == old(s)@.push(ch),
;

/// The uppercase form of an ASCII byte: lowercase letters (codes 97-122) are
/// shifted down by 32, all other bytes are unchanged.
pub open spec fn upper_byte(b: u8) -> u8 {
    if 97 <= b && b <= 122 {
        (b - 32) as u8
    } else {
        b
    }
}

/// Uppercase an ASCII byte.
fn to_upper(b: u8) -> (r: u8)
    ensures
        r == upper_byte(b),
{
    if 97 <= b && b <= 122 {
        b - 32
    } else {
        b
    }
}

/// Whether `c` is one of the eight color-code characters.
pub open spec fn is_color_char(c: char) -> bool {
    c == 'R' || c == 'O' || c == 'Y' || c == 'G' || c == 'B' || c == 'I' || c == 'V' || c == '?'
}

/// Whether the first record byte encodes a symbol `A`-`F`, case-insensitively.
pub open spec fn symbol_ok(b: u8) -> bool {
    65 <= upper_byte(b) && upper_byte(b) <= 70
}

/// Whether the second record byte is a digit `1`-`6`.
pub open spec fn slot_ok(b: u8) -> bool {
    49 <= b && b <= 54
}

/// Whether the third record byte encodes a color code, case-insensitively.
pub open spec fn color_ok(b: u8) -> bool {
    is_color_char(upper_byte(b) as char)
}

/// Whether `s` is a valid three-byte record.
pub open spec fn record_ok(s: Seq<u8>) -> bool {
    &&& s.len() == 3
    &&& symbol_ok(s[0])
    &&& slot_ok(s[1])
    &&& color_ok(s[2])
}

/// The error reported for an invalid record: the checks run in the order
/// length, symbol, slot, color, and the first to fail names the error.
pub open spec fn record_err(s: Seq<u8>) -> ParseError {
    if s.len() != 3 {
        ParseError::MalformedRecord
    } else if !symbol_ok(s[0]) {
        ParseError::InvalidSymbol
    } else if !slot_ok(s[1]) {
        ParseError::InvalidSlot
    } else {
        ParseError::InvalidColor
    }
}

/// The point a valid record decodes to: each byte uppercased, the slot digit
/// turned into its value.
pub closed spec fn point_of_record(s: Seq<u8>) -> Point {
    Point {
        chr: upper_byte(s[0]) as char,
        num: (s[1] - 48) as u8,
        col: upper_byte(s[2]) as char,
    }
}

/// What `point_of_record` yields on a valid record: a well-formed point whose
/// three components come from the record's three bytes.
pub proof fn lemma_point_of_record(s: Seq<u8>)
    requires
        record_ok(s),
    ensures
        point_of_record(s).wf(),
        point_of_record(s).sym() == upper_byte(s[0]) as char,
        point_of_record(s).slot() == (s[1] - 48) as u8,
        point_of_record(s).color_code() == upper_byte(s[2]) as char,
{
}

impl Point {
    /// The symbol character, always in `'A'..='F'` for a well-formed point.
    pub closed spec fn sym(self) -> char {
        self.chr
    }

    /// The slot number, always in `1..=6` for a well-formed point.
    pub closed spec fn slot(self) -> u8 {
        self.num
    }

    /// The color code, one of `R O Y G B I V ?` for a well-formed point.
    pub closed spec fn color_code(self) -> char {
        self.col
    }

    /// The construction invariant: every point built from a valid record
    /// satisfies this, and all accessors require it.
    pub open spec fn wf(self) -> bool {
        &&& 'A' <= self.sym() && self.sym() <= 'F'
        &&& 1 <= self.slot() && self.slot() <= 6
        &&& is_color_char(self.color_code())
    }

    /// Decode a three-byte record. Succeeds exactly on valid records, and an
    /// invalid record is rejected with the error of its first failing check.
    pub fn from_record(rec: &[u8]) -> (r: Result<Point, ParseError>)
        ensures
            record_ok(rec@) ==> r == Ok::<Point, ParseError>(point_of_record(rec@)),
            !record_ok(rec@) ==> r == Err::<Point, ParseError>(record_err(rec@)),
            r is Ok ==> r->Ok_0.wf(),
    {
        if rec.len() != 3 {
            return Err(ParseError::MalformedRecord);
        }
        let c0 = to_upper(rec[0]);
        if !(65 <= c0 && c0 <= 70) {
            return Err(ParseError::InvalidSymbol);
        }
        let c1 = rec[1];
        if !(49 <= c1 && c1 <= 54) {
            return Err(ParseError::InvalidSlot);
        }
        let c2 = to_upper(rec[2]);
        if !(c2 == 82 || c2 == 79 || c2 == 89 || c2 == 71 || c2 == 66 || c2 == 73 || c2 == 86
            || c2 == 63) {
            return Err(ParseError::InvalidColor);
        }
        proof {
            lemma_point_of_record(rec@);
        }
        Ok(Point { chr: c0 as char, num: c1 - 48, col: c2 as char })
    }

    /// The zero-based grid cell of this point: the column from the symbol,
    /// the row from the slot.
    pub open spec fn pos_spec(self) -> (u32, u32) {
        (((self.sym() as u32) - 65) as u32, ((self.slot() as u32) - 1) as u32)
    }

    /// The grid coordinates of this point, both below 6.
    pub fn get_pos(&self) -> (r: (u32, u32))
        requires
            self.wf(),
        ensures
            r == self.pos_spec(),
            r.0 < 6,
            r.1 < 6,
    {
        let x = self.chr as u32 - 65;
        let y = self.num as u32 - 1;
        (x, y)
    }

    /// The grid coordinates with column and row swapped.
    pub fn get_transposed(&self) -> (r: (u32, u32))
        requires
            self.wf(),
        ensures
            r.0 == self.pos_spec().1,
            r.1 == self.pos_spec().0,
    {
        let (x, y) = self.get_pos();
        (y, x)
    }

    /// The fixed RGB triple of each color code; codes outside the eight
    /// never reach a well-formed point.
    pub open spec fn rgb_spec(self) -> (u8, u8, u8) {
        if self.color_code() == 'R' {
            (255u8, 24u8, 0u8)
        } else if self.color_code() == 'O' {
            (255u8, 133u8, 0u8)
        } else if self.color_code() == 'Y' {
            (252u8, 237u8, 0u8)
        } else if self.color_code() == 'G' {
            (0u8, 109u8, 0u8)
        } else if self.color_code() == 'B' {
            (0u8, 15u8, 255u8)
        } else if self.color_code() == 'I' {
            (80u8, 15u8, 134u8)
        } else if self.color_code() == 'V' {
            (158u8, 27u8, 219u8)
        } else {
            (135u8, 74u8, 43u8)
        }
    }

    /// The color of this point as an RGB triple.
    pub fn get_rgb(&self) -> (r: (u8, u8, u8))
        requires
            self.wf(),
        ensures
            r == self.rgb_spec(),
    {
        match self.col {
            'R' => (255, 24, 0),
            'O' => (255, 133, 0),
            'Y' => (252, 237, 0),
            'G' => (0, 109, 0),
            'B' => (0, 15, 255),
            'I' => (80, 15, 134),
            'V' => (158, 27, 219),
            _ => (135, 74, 43),
        }
    }

    /// The record text this point decodes from, uppercased: symbol, slot
    /// digit, color code.
    pub open spec fn canonical_spec(self) -> Seq<char> {
        seq![self.sym(), ((self.slot() + 48) as u8) as char, self.color_code()]
    }

    /// The canonical three-character text form of this point.
    pub fn canonical_form(&self) -> (r: String)
        requires
            self.wf(),
        ensures
            r@ == self.canonical_spec(),
    {
        let mut s = String::new();
        s.push(self.chr);
        s.push((self.num + 48) as char);
        s.push(self.col);
        proof {
            assert(s@ =~= self.canonical_spec());
        }
        s
    }
}

/// Decoding a valid record and printing the point back yields the record
/// itself with each byte uppercased.
pub proof fn lemma_canonical_round_trip(s: Seq<u8>)
    requires
        record_ok(s),
    ensures
        point_of_record(s).canonical_spec() =~= s.map_values(|b: u8| upper_byte(b) as char),
{
    assert(upper_byte(s[1]) == s[1]);
}

/// Two well-formed points that share a grid position share their symbol and
/// slot: the position determines them.
pub proof fn lemma_position_injective(p: Point, q: Point)
    requires
        p.wf(),
        q.wf(),
        p.pos_spec() == q.pos_spec(),
    ensures
        p.sym() == q.sym(),
        p.slot() == q.slot(),
{
}

/// Every cell of the 6x6 grid is the position of some well-formed point.
pub proof fn lemma_position_surjective(x: u32, y: u32)
    requires
        x < 6,
        y < 6,
    ensures
        exists|p: Point| p.wf() && p.pos_spec() == (x, y),
{
    let p = Point { chr: ((65 + x) as u8) as char, num: (y + 1) as u8, col: 'R' };
    assert(p.wf() && p.pos_spec() == (x, y));
}

} // verus!
