use flashcards::compose::{compose, draw_side, sheets_for, Card, DrawInstruction, Page, TEXT_ROTATION};
use flashcards::grid::{Cell, GridSpec, Point};

fn cards(n: usize) -> Vec<Card> {
    (0..n)
        .map(|i| Card { front: format!("front {}", i), back: format!("back {}", i) })
        .collect()
}

fn border_origin(d: &DrawInstruction) -> Point {
    match d {
        DrawInstruction::Border { corners } => corners[0],
        DrawInstruction::Text { .. } => panic!("expected a border"),
    }
}

fn text_of(d: &DrawInstruction) -> Vec<String> {
    match d {
        DrawInstruction::Text { lines } => lines.iter().map(|l| l.text.clone()).collect(),
        DrawInstruction::Border { .. } => panic!("expected text"),
    }
}

#[test]
fn a4_grid_dimensions() {
    let g = GridSpec::a4();
    assert_eq!(g.per_sheet(), 16);
    assert_eq!(g.cell_width(), 500_000);
    assert_eq!(g.cell_height(), 717_500);
    assert_eq!(g.text_span(), 517_500);
}

#[test]
fn seventeen_cards_make_two_sheets_of_four_pages() {
    let g = GridSpec::a4();
    let pages: Vec<Page> = compose(&cards(17), &g);
    assert_eq!(pages.len(), 4);
    let sides: Vec<(bool, usize)> = pages.iter().map(|p| (p.is_front, p.sheet)).collect();
    assert_eq!(sides, vec![(true, 0), (false, 0), (true, 1), (false, 1)]);
    assert_eq!(pages[0].instructions.len(), 32);
    assert_eq!(pages[1].instructions.len(), 32);
    // The second sheet holds only card 16, at (0, 0) in front and (3, 0) behind.
    assert_eq!(pages[2].instructions.len(), 2);
    assert_eq!(pages[3].instructions.len(), 2);
    assert_eq!(border_origin(&pages[2].instructions[0]), g.cell_origin(Cell { col: 0, row: 0 }));
    assert_eq!(border_origin(&pages[3].instructions[0]), g.cell_origin(Cell { col: 3, row: 0 }));
    assert_eq!(border_origin(&pages[2].instructions[0]), Point { x: 50_000, y: 2_202_500 });
    assert_eq!(border_origin(&pages[3].instructions[0]), Point { x: 1_550_000, y: 2_202_500 });
    assert_eq!(text_of(&pages[2].instructions[1]), vec!["front 16".to_string()]);
    assert_eq!(text_of(&pages[3].instructions[1]), vec!["back 16".to_string()]);
}

#[test]
fn no_cards_give_no_pages() {
    let pages = compose(&Vec::new(), &GridSpec::a4());
    assert!(pages.is_empty());
}

#[test]
fn page_count_is_twice_the_sheets() {
    let g = GridSpec::a4();
    for (n, want) in [(1usize, 2usize), (15, 2), (16, 2), (17, 4), (32, 4), (33, 6)] {
        assert_eq!(compose(&cards(n), &g).len(), want);
        assert_eq!(sheets_for(n, 16) * 2, want);
    }
    assert_eq!(sheets_for(0, 16), 0);
    assert_eq!(sheets_for(usize::MAX, 16), usize::MAX / 16 + 1);
}

#[test]
fn back_cells_mirror_columns_only() {
    let g = GridSpec::a4();
    for i in 0..16usize {
        let f = g.cell_for(i, true);
        let b = g.cell_for(i, false);
        assert_eq!(f, Cell { col: i % 4, row: i / 4 });
        assert_eq!(b, Cell { col: 3 - i % 4, row: i / 4 });
        assert_eq!(b.row * 4 + (3 - b.col), i);
    }
}

#[test]
fn full_sheet_front_and_back_align() {
    let g = GridSpec::a4();
    let cs = cards(16);
    let front = draw_side(&cs, &g, 0, true);
    let back = draw_side(&cs, &g, 0, false);
    assert_eq!(front.len(), 32);
    assert_eq!(back.len(), 32);
    for i in 0..16usize {
        let f = border_origin(&front[2 * i]);
        let b = border_origin(&back[2 * i]);
        assert_eq!(f.y, b.y);
        assert_eq!(f.x + b.x, 2 * 50_000 + 3 * 500_000);
    }
}

#[test]
fn border_is_the_closed_cell_outline() {
    let g = GridSpec::a4();
    let pages = compose(&cards(6), &g);
    match &pages[0].instructions[10] {
        DrawInstruction::Border { corners } => {
            // Card 5 sits at column 1, row 1.
            assert_eq!(
                corners.clone(),
                vec![
                    Point { x: 550_000, y: 1_485_000 },
                    Point { x: 1_050_000, y: 1_485_000 },
                    Point { x: 1_050_000, y: 2_202_500 },
                    Point { x: 550_000, y: 2_202_500 },
                ]
            );
        }
        DrawInstruction::Text { .. } => panic!("expected a border"),
    }
}

#[test]
fn long_text_is_wrapped_and_stacked_leftwards() {
    let g = GridSpec::a4();
    let cs = vec![Card {
        front: "the quick brown fox jumps over the lazy dog".to_string(),
        back: "dog".to_string(),
    }];
    let pages = compose(&cs, &g);
    match &pages[0].instructions[1] {
        DrawInstruction::Text { lines } => {
            let texts: Vec<&str> = lines.iter().map(|l| l.text.as_str()).collect();
            assert_eq!(texts, vec!["the quick brown", "fox jumps over", "the lazy dog"]);
            for (j, l) in lines.iter().enumerate() {
                assert_eq!(l.font_size, 18);
                assert_eq!(l.rotation, TEXT_ROTATION);
                assert_eq!(l.rotation, -90);
                assert_eq!(l.x, 300_000 - 70_000 * j as i128);
                assert_eq!(l.y, 2_820_000);
            }
        }
        DrawInstruction::Border { .. } => panic!("expected text"),
    }
    // The back shows the card in the mirrored column.
    match &pages[1].instructions[1] {
        DrawInstruction::Text { lines } => {
            assert_eq!(lines.len(), 1);
            assert_eq!(lines[0].text, "dog");
            assert_eq!(lines[0].x, 1_800_000);
        }
        DrawInstruction::Border { .. } => panic!("expected text"),
    }
}
