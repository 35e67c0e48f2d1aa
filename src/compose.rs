use vstd::prelude::*;
use crate::grid::{cell_of, Cell, GridSpec, Point, MAX_LENGTH};
use crate::wrap::{max_chars, wrap_lines, wrap_text};

verus! {

/// The rotation of card text, in degrees: a quarter turn clockwise.
pub const TEXT_ROTATION: i32 = -90;

/// A flash card: the text of its front and of its back.
#[derive(Clone, Debug)]
pub struct Card {
    pub front: String,
    pub back: String,
}

/// One line of text placed on a page.
#[derive(Clone, Debug)]
pub struct TextLine {
    pub text: String,
    /// Font size in points.
    pub font_size: u32,
    pub x: i128,
    pub y: i128,
    /// Rotation in degrees.
    pub rotation: i32,
}

/// What a page draws for one card: the cell's border, as a closed polygon of
/// its four corners, and the card's text, one placement per line.
#[derive(Clone, Debug)]
pub enum DrawInstruction {
    Border { corners: Vec<Point> },
    Text { lines: Vec<TextLine> },
}

/// One side of a sheet, with what it draws.
#[derive(Clone, Debug)]
pub struct Page {
    pub is_front: bool,
    pub sheet: usize,
    pub instructions: Vec<DrawInstruction>,
}

/// The text a card shows on the given side.
pub open spec fn side_text(card: Card, is_front: bool) -> Seq<char> {
    if is_front {
        card.front@
    } else {
        card.back@
    }
}

/// The number of sheets that `n` cards fill, `per` to a sheet: n / per
/// rounded up.
pub open spec fn sheet_count(n: nat, per: nat) -> nat {
    if n % per == 0 {
        n / per
    } else {
        n / per + 1
    }
}

/// How many cards sheet `s` holds.
pub open spec fn sheet_len(n: nat, per: nat, s: nat) -> nat {
    if n - s * per < per {
        (n - s * per) as nat
    } else {
        per
    }
}

/// The corners of `cell`, counter-clockwise from its bottom left.
pub open spec fn border_corners(g: GridSpec, cell: Cell) -> Seq<Point> {
    let o = g.origin_spec(cell);
    let w = g.cell_width_spec();
    let h = g.cell_height_spec();
    seq![
        o,
        Point { x: (o.x + w) as i128, y: o.y },
        Point { x: (o.x + w) as i128, y: (o.y + h) as i128 },
        Point { x: o.x, y: (o.y + h) as i128 },
    ]
}

/// Where the first text line of `cell` starts: the middle of the cell
/// across, the inset below its top.
pub open spec fn text_origin(g: GridSpec, cell: Cell) -> (int, int) {
    let o = g.origin_spec(cell);
    (o.x + g.cell_width_spec() / 2, o.y + g.cell_height_spec() - g.text_inset)
}

/// The lines a cell's text wraps into: along the cell's height, less the insets.
pub open spec fn cell_lines(g: GridSpec, text: Seq<char>) -> Seq<Seq<char>> {
    wrap_lines(text, max_chars(g.font_size, g.text_span_spec() as u64))
}

/// Line `j` of a cell: the text origin moved `j` line spacings to the left,
/// rotated a quarter turn clockwise.
pub open spec fn line_placed(l: TextLine, g: GridSpec, cell: Cell, j: int, s: Seq<char>) -> bool {
    &&& l.text@ == s
    &&& l.font_size == g.font_size
    &&& l.x == text_origin(g, cell).0 - j * g.line_spacing
    &&& l.y == text_origin(g, cell).1
    &&& l.rotation == TEXT_ROTATION
}

/// `d` is the border of `cell`.
pub open spec fn is_border(d: DrawInstruction, g: GridSpec, cell: Cell) -> bool {
    match d {
        DrawInstruction::Border { corners } => corners@ == border_corners(g, cell),
        _ => false,
    }
}

/// `d` sets `text` in `cell`: one placement for each of its wrapped lines.
pub open spec fn is_text_block(d: DrawInstruction, g: GridSpec, cell: Cell, text: Seq<char>) -> bool {
    match d {
        DrawInstruction::Text { lines } => {
            &&& lines@.len() == cell_lines(g, text).len()
            &&& forall|j: int|
                0 <= j < lines@.len() ==> line_placed(
                    #[trigger] lines@[j],
                    g,
                    cell,
                    j,
                    cell_lines(g, text)[j],
                )
        },
        _ => false,
    }
}

/// The cell that card `index` of a sheet occupies on the given side.
pub open spec fn cell_at(g: GridSpec, index: int, is_front: bool) -> Cell {
    let c = cell_of(g.cols as int, index, is_front);
    Cell { col: c.0 as usize, row: c.1 as usize }
}

/// Card `i` of sheet `s` is drawn by instructions `2i` (its border) and
/// `2i + 1` (its text).
pub open spec fn card_drawn(
    ins: Seq<DrawInstruction>,
    cards: Seq<Card>,
    g: GridSpec,
    s: nat,
    i: int,
    is_front: bool,
) -> bool {
    let cell = cell_at(g, i, is_front);
    &&& is_border(ins[2 * i], g, cell)
    &&& is_text_block(ins[2 * i + 1], g, cell, side_text(cards[s * g.per_sheet_spec() + i], is_front))
}

/// The instructions of side `is_front` of sheet `s`: two for each card of
/// the sheet, in order, and none for an empty cell.
pub open spec fn side_drawn(
    ins: Seq<DrawInstruction>,
    cards: Seq<Card>,
    g: GridSpec,
    s: nat,
    is_front: bool,
) -> bool {
    let len = sheet_len(cards.len(), g.per_sheet_spec(), s);
    &&& ins.len() == 2 * len
    &&& forall|i: int| 0 <= i < len ==> #[trigger] card_drawn(ins, cards, g, s, i, is_front)
}

proof fn lemma_sheet_start(n: nat, per: nat, s: nat)
    requires
        per > 0,
        s < sheet_count(n, per),
    ensures
        s * per < n,
{
    vstd::arithmetic::div_mod::lemma_fundamental_div_mod(n as int, per as int);
    vstd::arithmetic::div_mod::lemma_mod_bound(n as int, per as int);
    let q = n / per;
    if n % per == 0 {
        assert(s * per < q * per) by (nonlinear_arith)
            requires s < q, per > 0;
    } else {
        assert(s * per <= q * per) by (nonlinear_arith)
            requires s <= q, per > 0;
    }
    vstd::arithmetic::mul::lemma_mul_is_commutative(q as int, per as int);
}

/// The number of sheets that `n` cards fill, `per` to a sheet.
pub fn sheets_for(n: usize, per: usize) -> (r: usize)
    requires
        per > 0,
    ensures
        r == sheet_count(n as nat, per as nat),
{
    if n % per == 0 {
        n / per
    } else {
        assert(n / per < n) by (nonlinear_arith)
            requires n % per != 0, per > 0, n >= 0;
        n / per + 1
    }
}

/// The border of `cell`.
pub fn cell_border(g: &GridSpec, cell: Cell) -> (r: DrawInstruction)
    requires
        g.wf(),
        cell.col < g.cols,
        cell.row < g.rows,
    ensures
        is_border(r, *g, cell),
{
    let o = g.cell_origin(cell);
    let w = g.cell_width() as i128;
    let h = g.cell_height() as i128;
    let mut corners: Vec<Point> = Vec::new();
    corners.push(o);
    corners.push(Point { x: o.x + w, y: o.y });
    corners.push(Point { x: o.x + w, y: o.y + h });
    corners.push(Point { x: o.x, y: o.y + h });
    assert(corners@ =~= border_corners(*g, cell));
    DrawInstruction::Border { corners }
}

/// The text of a card set in `cell`: wrapped along the cell's height, each
/// line rotated a quarter turn clockwise and stacked leftwards.
pub fn text_block(g: &GridSpec, cell: Cell, text: &str) -> (r: DrawInstruction)
    requires
        g.wf(),
        cell.col < g.cols,
        cell.row < g.rows,
    ensures
        is_text_block(r, *g, cell, text@),
{
    let wrapped = wrap_text(text, g.font_size, g.text_span());
    let ghost want = cell_lines(*g, text@);
    let o = g.cell_origin(cell);
    let x0: i128 = o.x + (g.cell_width() / 2) as i128;
    let y0: i128 = o.y + g.cell_height() as i128 - g.text_inset as i128;
    let spacing = g.line_spacing as i128;
    let mut lines: Vec<TextLine> = Vec::new();
    let mut j: usize = 0;
    while j < wrapped.len()
        invariant
            g.wf(),
            wrapped.deep_view() == want,
            j <= wrapped.len(),
            lines@.len() == j,
            x0 == text_origin(*g, cell).0,
            y0 == text_origin(*g, cell).1,
            0 <= x0 <= MAX_LENGTH,
            spacing == g.line_spacing,
            forall|k: int| 0 <= k < j ==> line_placed(#[trigger] lines@[k], *g, cell, k, want[k]),
        decreases wrapped.len() - j,
    {
        proof {
            assert((j as int) * (spacing as int) <= (usize::MAX as int) * (MAX_LENGTH as int))
                by (nonlinear_arith)
                requires j <= usize::MAX, 0 <= spacing <= MAX_LENGTH;
            assert(wrapped.deep_view()[j as int] == wrapped@[j as int]@);
        }
        let line = TextLine {
            text: wrapped[j].clone(),
            font_size: g.font_size,
            x: x0 - (j as i128) * spacing,
            y: y0,
            rotation: TEXT_ROTATION,
        };
        lines.push(line);
        j += 1;
    }
    DrawInstruction::Text { lines }
}

/// Page `p` of a composition: side `p % 2 == 0` (front first) of sheet `p / 2`.
pub open spec fn page_drawn(page: Page, cards: Seq<Card>, g: GridSpec, p: int) -> bool {
    &&& page.is_front == (p % 2 == 0)
    &&& page.sheet == p / 2
    &&& side_drawn(page.instructions@, cards, g, (p / 2) as nat, p % 2 == 0)
}

/// What one side of sheet `s` draws: a border and a text block for each
/// card of the sheet, in the card's cell for that side.
pub fn draw_side(cards: &Vec<Card>, g: &GridSpec, s: usize, is_front: bool) -> (r: Vec<
    DrawInstruction,
>)
    requires
        g.wf(),
        s < sheet_count(cards@.len(), g.per_sheet_spec()),
    ensures
        side_drawn(r@, cards@, *g, s as nat, is_front),
{
    let per = g.per_sheet();
    let n = cards.len();
    proof {
        lemma_sheet_start(cards@.len(), per as nat, s as nat);
        assert((s as int) * (per as int) < cards@.len());
    }
    let start = s * per;
    let rest = n - start;
    let len = if rest < per {
        rest
    } else {
        per
    };
    assert(len == sheet_len(cards@.len(), per as nat, s as nat));
    let mut ins: Vec<DrawInstruction> = Vec::new();
    let mut i: usize = 0;
    while i < len
        invariant
            g.wf(),
            per == g.per_sheet_spec(),
            start == s * per,
            len == sheet_len(cards@.len(), per as nat, s as nat),
            n == cards@.len(),
            start + len <= n,
            len <= per,
            i <= len,
            ins@.len() == 2 * i,
            forall|k: int| 0 <= k < i ==> #[trigger] card_drawn(ins@, cards@, *g, s as nat, k, is_front),
        decreases len - i,
    {
        let cell = g.cell_for(i, is_front);
        assert(cell == cell_at(*g, i as int, is_front));
        let card = &cards[start + i];
        let text = if is_front {
            card.front.as_str()
        } else {
            card.back.as_str()
        };
        let ghost old_ins = ins@;
        ins.push(cell_border(g, cell));
        ins.push(text_block(g, cell, text));
        assert forall|k: int| 0 <= k <= i implies #[trigger] card_drawn(
            ins@,
            cards@,
            *g,
            s as nat,
            k,
            is_front,
        ) by {
            if k < i {
                assert(card_drawn(old_ins, cards@, *g, s as nat, k, is_front));
                assert(ins@[2 * k] == old_ins[2 * k]);
                assert(ins@[2 * k + 1] == old_ins[2 * k + 1]);
            }
        }
        i += 1;
    }
    ins
}

/// Lays out `cards` on sheets of the grid `g`: for each sheet in turn its
/// front page and then its back page. An empty card list gives no pages.
pub fn compose(cards: &Vec<Card>, g: &GridSpec) -> (r: Vec<Page>)
    requires
        g.wf(),
    ensures
        r@.len() == 2 * sheet_count(cards@.len(), g.per_sheet_spec()),
        forall|p: int| 0 <= p < r@.len() ==> #[trigger] page_drawn(r@[p], cards@, *g, p),
{
    let per = g.per_sheet();
    let sheets = sheets_for(cards.len(), per);
    let mut pages: Vec<Page> = Vec::new();
    let mut s: usize = 0;
    while s < sheets
        invariant
            g.wf(),
            per == g.per_sheet_spec(),
            sheets == sheet_count(cards@.len(), per as nat),
            s <= sheets,
            pages@.len() == 2 * s,
            forall|p: int| 0 <= p < pages@.len() ==> #[trigger] page_drawn(pages@[p], cards@, *g, p),
        decreases sheets - s,
    {
        let ghost old_pages = pages@;
        let front = draw_side(cards, g, s, true);
        pages.push(Page { is_front: true, sheet: s, instructions: front });
        let back = draw_side(cards, g, s, false);
        pages.push(Page { is_front: false, sheet: s, instructions: back });
        assert forall|p: int| 0 <= p < pages@.len() implies #[trigger] page_drawn(
            pages@[p],
            cards@,
            *g,
            p,
        ) by {
            if p < old_pages.len() {
                assert(pages@[p] == old_pages[p]);
            } else if p == 2 * s {
                assert(p / 2 == s && p % 2 == 0);
            } else {
                assert(p / 2 == s && p % 2 == 1);
            }
        }
        s += 1;
    }
    pages
}

} // verus!
