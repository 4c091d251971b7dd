use vstd::prelude::*;
use crate::text::index_of_from;

verus! {

/// Number of keys on the grid.
pub const KEY_COUNT: usize = 30;

/// Number of columns of the grid.
pub const COLUMNS: usize = 10;

/// Side of a key, in world units.
pub const KEY_SIZE: i64 = 100;

/// Gap between two neighbouring keys, in world units.
pub const PADDING: i64 = 10;

/// All glyphs of `s` are pairwise distinct.
pub open spec fn distinct_glyphs(s: Seq<char>) -> bool {
    forall|i: int, j: int| 0 <= i < j < s.len() ==> s[i] != s[j]
}

/// An assignment of 30 distinct glyphs to the slots of the grid.
#[derive(Clone, Copy, Debug)]
pub struct Layout(&'static str);

impl Layout {
    pub closed spec fn glyphs(&self) -> Seq<char> {
        self.0@
    }

    /// The layout holds exactly one glyph per slot, none twice.
    pub open spec fn wf(&self) -> bool {
        &&& self.glyphs().len() == KEY_COUNT
        &&& distinct_glyphs(self.glyphs())
    }

    fn from_literal(lit: &'static str) -> (r: Self)
        ensures
            r.glyphs() == lit@,
    {
        Self(lit)
    }

    pub fn qwerty() -> (r: Self)
        ensures
            r.wf(),
            r.glyphs() == "QWERTYUIOPASDFGHJKL;ZXCVBNM,./"@,
    {
        proof {
            reveal_strlit("QWERTYUIOPASDFGHJKL;ZXCVBNM,./");
        }
        Self::from_literal("QWERTYUIOPASDFGHJKL;ZXCVBNM,./")
    }

    pub fn dvorak() -> (r: Self)
        ensures
            r.wf(),
            r.glyphs() == "/,.PYFGCRLAOEUIDHTNS;QJKXBMWVZ"@,
    {
        proof {
            reveal_strlit("/,.PYFGCRLAOEUIDHTNS;QJKXBMWVZ");
        }
        Self::from_literal("/,.PYFGCRLAOEUIDHTNS;QJKXBMWVZ")
    }

    pub fn colemak() -> (r: Self)
        ensures
            r.wf(),
            r.glyphs() == "QWFPGJLUY;ARSTDHNEIOZXCVBKM,./"@,
    {
        proof {
            reveal_strlit("QWFPGJLUY;ARSTDHNEIOZXCVBKM,./");
        }
        Self::from_literal("QWFPGJLUY;ARSTDHNEIOZXCVBKM,./")
    }

    pub fn colemak_dh() -> (r: Self)
        ensures
            r.wf(),
            r.glyphs() == "QWFPBJLUY;ARSTGMNEIOZXCDVKH,./"@,
    {
        proof {
            reveal_strlit("QWFPBJLUY;ARSTGMNEIOZXCDVKH,./");
        }
        Self::from_literal("QWFPBJLUY;ARSTGMNEIOZXCDVKH,./")
    }

    /// The layout behind selection command `id` (1 to 4), if there is one.
    pub fn from_selection(id: u32) -> (r: Option<Self>)
        ensures
            r is Some <==> 1 <= id <= 4,
            r is Some ==> r->0.wf() && r->0.glyphs() == Self::selection_glyphs(id),
            id == 1 ==> r->0.glyphs() == Self::qwerty_glyphs(),
            id == 2 ==> r->0.glyphs() == Self::dvorak_glyphs(),
            id == 3 ==> r->0.glyphs() == Self::colemak_glyphs(),
            id == 4 ==> r->0.glyphs() == Self::colemak_dh_glyphs(),
    {
        if id == 1 {
            Some(Self::qwerty())
        } else if id == 2 {
            Some(Self::dvorak())
        } else if id == 3 {
            Some(Self::colemak())
        } else if id == 4 {
            Some(Self::colemak_dh())
        } else {
            None
        }
    }

    /// The glyphs of the layout that selection command `id` picks.
    pub open spec fn selection_glyphs(id: u32) -> Seq<char> {
        if id == 1 {
            Self::qwerty_glyphs()
        } else if id == 2 {
            Self::dvorak_glyphs()
        } else if id == 3 {
            Self::colemak_glyphs()
        } else {
            Self::colemak_dh_glyphs()
        }
    }

    pub open spec fn qwerty_glyphs() -> Seq<char> {
        "QWERTYUIOPASDFGHJKL;ZXCVBNM,./"@
    }

    pub open spec fn dvorak_glyphs() -> Seq<char> {
        "/,.PYFGCRLAOEUIDHTNS;QJKXBMWVZ"@
    }

    pub open spec fn colemak_glyphs() -> Seq<char> {
        "QWFPGJLUY;ARSTDHNEIOZXCVBKM,./"@
    }

    pub open spec fn colemak_dh_glyphs() -> Seq<char> {
        "QWFPBJLUY;ARSTGMNEIOZXCDVKH,./"@
    }

    /// The label of slot `i`: its glyph as a one-character string.
    pub fn s(&self, i: usize) -> (r: &'static str)
        requires
            self.wf(),
            i < KEY_COUNT,
        ensures
            r@ == seq![self.glyphs()[i as int]],
    {
        let r = self.0.substring_char(i, i + 1);
        assert(r@ =~= seq![self.glyphs()[i as int]]);
        r
    }

    /// The glyph at slot `i`.
    pub fn ch(&self, i: usize) -> (r: char)
        requires
            self.wf(),
            i < KEY_COUNT,
        ensures
            r == self.glyphs()[i as int],
    {
        self.0.get_char(i)
    }

    /// The slot that holds glyph `c`.
    pub fn find(&self, c: char) -> (r: Result<Key, NotFound>)
        requires
            self.wf(),
        ensures
            r is Ok <==> self.glyphs().contains(c),
            match r {
                Ok(k) => k.wf() && self.glyphs()[k.slot() as int] == c && k.slot() == index_of_from(
                    self.glyphs(),
                    0,
                    c,
                ),
                Err(e) => e.glyph == c,
            },
    {
        let mut i: usize = 0;
        while i < KEY_COUNT
            invariant
                self.wf(),
                i <= KEY_COUNT,
                forall|j: int| 0 <= j < i ==> self.glyphs()[j] != c,
                index_of_from(self.glyphs(), 0, c) == index_of_from(self.glyphs(), i as int, c),
            decreases KEY_COUNT - i,
        {
            if self.0.get_char(i) == c {
                return Ok(Key(i));
            }
            i = i + 1;
        }
        assert(!self.glyphs().contains(c));
        Err(NotFound { glyph: c })
    }
}

/// A glyph that the active layout does not hold.
#[derive(Clone, Copy, Debug, PartialEq, Eq)]
pub struct NotFound {
    pub glyph: char,
}

/// A point of the plane, in world units; `y` grows upwards.
#[derive(Clone, Copy, Debug, PartialEq, Eq)]
pub struct Point {
    pub x: i64,
    pub y: i64,
}

/// Horizontal centre of a key in column `col`, the grid being centred on the origin.
pub open spec fn column_x(col: int) -> int {
    col * (KEY_SIZE + PADDING) - (KEY_SIZE * 10 + PADDING * 9) / 2 + KEY_SIZE / 2
}

/// Vertical centre of a key in row `row`; row 0 is the topmost.
pub open spec fn row_y(row: int) -> int {
    (KEY_SIZE * 3 + PADDING * 2) / 2 - KEY_SIZE / 2 - row * (KEY_SIZE + PADDING)
}

/// The centre of the key at `slot`.
pub open spec fn slot_position(slot: int) -> Point {
    Point {
        x: column_x(slot % COLUMNS as int) as i64,
        y: row_y(slot / COLUMNS as int) as i64,
    }
}

/// A slot of the grid, 0 to 29, counted row by row from the top left.
#[derive(Clone, Copy, Debug, PartialEq, Eq)]
pub struct Key(pub usize);

impl Key {
    pub open spec fn slot_spec(&self) -> usize {
        self.0
    }

    pub open spec fn wf(&self) -> bool {
        self.slot_spec() < KEY_COUNT
    }

    pub fn new(slot: usize) -> (r: Self)
        requires
            slot < KEY_COUNT,
        ensures
            r.wf(),
            r.slot() == slot,
    {
        Key(slot)
    }

    #[verifier::when_used_as_spec(slot_spec)]
    pub fn slot(&self) -> (r: usize)
        ensures
            r == self.slot_spec(),
    {
        self.0
    }

    /// The centre of this key on the grid.
    pub fn pos(&self) -> (r: Point)
        requires
            self.wf(),
        ensures
            r == slot_position(self.slot() as int),
            -COLUMNS * (KEY_SIZE + PADDING) <= r.x <= COLUMNS * (KEY_SIZE + PADDING),
            -COLUMNS * (KEY_SIZE + PADDING) <= r.y <= COLUMNS * (KEY_SIZE + PADDING),
    {
        let half_width: i64 = (KEY_SIZE * 10 + PADDING * 9) / 2;
        let half_height: i64 = (KEY_SIZE * 3 + PADDING * 2) / 2;
        let col = (self.0 % COLUMNS) as i64;
        let row = (self.0 / COLUMNS) as i64;
        Point {
            x: col * (KEY_SIZE + PADDING) - half_width + KEY_SIZE / 2,
            y: half_height - KEY_SIZE / 2 - row * (KEY_SIZE + PADDING),
        }
    }
}

/// On a layout, the slot of the glyph at any slot is that slot: looking a glyph
/// up finds exactly where it stands.
pub proof fn law_slot_round_trip(layout: Layout, slot: int)
    requires
        layout.wf(),
        0 <= slot < KEY_COUNT,
    ensures
        layout.glyphs().contains(layout.glyphs()[slot]),
        index_of_from(layout.glyphs(), 0, layout.glyphs()[slot]) == slot,
{
    let g = layout.glyphs();
    let c = g[slot];
    assert(g.contains(c));
    lemma_first_index(g, 0, slot, c);
}

/// The four built-in layouts are permutations of one alphabet: each holds
/// exactly the glyphs of qwerty.
pub proof fn law_shared_alphabet()
    ensures
        forall|c: char|
            Layout::qwerty_glyphs().contains(c) <==> Layout::dvorak_glyphs().contains(c),
        forall|c: char|
            Layout::qwerty_glyphs().contains(c) <==> Layout::colemak_glyphs().contains(c),
        forall|c: char|
            Layout::qwerty_glyphs().contains(c) <==> Layout::colemak_dh_glyphs().contains(c),
{
    reveal_strlit("QWERTYUIOPASDFGHJKL;ZXCVBNM,./");
    reveal_strlit("/,.PYFGCRLAOEUIDHTNS;QJKXBMWVZ");
    reveal_strlit("QWFPGJLUY;ARSTDHNEIOZXCVBKM,./");
    reveal_strlit("QWFPBJLUY;ARSTGMNEIOZXCDVKH,./");
    lemma_same_glyphs(
        Layout::qwerty_glyphs(),
        Layout::dvorak_glyphs(),
        seq![21, 27, 12, 8, 17, 4, 13, 14, 11, 3, 10, 19, 15, 5, 6, 16, 22, 23, 9, 20, 29, 24, 7, 28, 25, 18, 26, 1, 2, 0],
        seq![29, 27, 28, 9, 5, 13, 14, 22, 3, 18, 10, 8, 2, 6, 7, 12, 15, 4, 25, 11, 19, 0, 16, 17, 21, 24, 26, 1, 23, 20],
    );
    lemma_same_glyphs(
        Layout::qwerty_glyphs(),
        Layout::colemak_glyphs(),
        seq![0, 1, 17, 11, 13, 8, 7, 18, 19, 3, 10, 12, 14, 2, 4, 15, 5, 25, 6, 9, 20, 21, 22, 23, 24, 16, 26, 27, 28, 29],
        seq![0, 1, 13, 9, 14, 16, 18, 6, 5, 19, 10, 3, 11, 4, 12, 15, 25, 2, 7, 8, 20, 21, 22, 23, 24, 17, 26, 27, 28, 29],
    );
    lemma_same_glyphs(
        Layout::qwerty_glyphs(),
        Layout::colemak_dh_glyphs(),
        seq![0, 1, 17, 11, 13, 8, 7, 18, 19, 3, 10, 12, 23, 2, 14, 26, 5, 25, 6, 9, 20, 21, 22, 24, 4, 16, 15, 27, 28, 29],
        seq![0, 1, 13, 9, 24, 16, 18, 6, 5, 19, 10, 3, 11, 4, 14, 26, 25, 2, 7, 8, 20, 21, 22, 12, 23, 17, 15, 27, 28, 29],
    );
}

/// Two glyph sequences that map onto each other slot by slot, through `p` one way
/// and `q` the other, hold the same glyphs.
proof fn lemma_same_glyphs(a: Seq<char>, b: Seq<char>, p: Seq<int>, q: Seq<int>)
    requires
        p.len() == a.len(),
        q.len() == b.len(),
        forall|i: int| 0 <= i < a.len() ==> 0 <= #[trigger] p[i] < b.len() && a[i] == b[p[i]],
        forall|i: int| 0 <= i < b.len() ==> 0 <= #[trigger] q[i] < a.len() && b[i] == a[q[i]],
    ensures
        forall|c: char| a.contains(c) <==> b.contains(c),
{
    assert forall|c: char| a.contains(c) implies b.contains(c) by {
        let i = choose|i: int| 0 <= i < a.len() && a[i] == c;
        assert(b[p[i]] == c);
    }
    assert forall|c: char| b.contains(c) implies a.contains(c) by {
        let i = choose|i: int| 0 <= i < b.len() && b[i] == c;
        assert(a[q[i]] == c);
    }
}

/// Among distinct glyphs, the search for the glyph at `slot` from any earlier
/// index stops at `slot`.
proof fn lemma_first_index(g: Seq<char>, i: int, slot: int, c: char)
    requires
        distinct_glyphs(g),
        0 <= i <= slot < g.len(),
        g[slot] == c,
    ensures
        index_of_from(g, i, c) == slot,
    decreases slot - i,
{
    if i < slot {
        assert(g[i] != c);
        lemma_first_index(g, i + 1, slot, c);
    }
}

} // verus!
