use starbot::cell::digit_char;
use starbot::Cell;

const ALL: [Cell; 9] = [
    Cell::Unknown,
    Cell::Empty,
    Cell::Base,
    Cell::Obstacle,
    Cell::Mineral,
    Cell::Energy,
    Cell::SciencePOI,
    Cell::Robot(0),
    Cell::Robot(7),
];

#[test]
fn glyph_of_every_digit() {
    let digits = ['0', '1', '2', '3', '4', '5', '6', '7', '8', '9'];
    for n in 0..10 {
        assert_eq!(Cell::Robot(n).to_char(), digits[n]);
        assert_eq!(digit_char(n), digits[n]);
    }
}

#[test]
fn glyph_of_large_identifiers_is_x() {
    assert_eq!(Cell::Robot(11).to_char(), 'X');
    assert_eq!(Cell::Robot(4294967297).to_char(), 'X');
    assert_eq!(Cell::Robot(usize::MAX).to_char(), 'X');
}

#[test]
fn glyphs_are_stable() {
    for c in ALL {
        assert_eq!(c.to_char(), c.to_char());
    }
}

#[test]
fn only_three_cells_are_collectable() {
    for c in ALL {
        let expected = matches!(c, Cell::Mineral | Cell::Energy | Cell::SciencePOI);
        assert_eq!(c.is_collectable(), expected);
    }
}

#[test]
fn unknown_gives_way_to_anything() {
    for peer in ALL {
        assert_eq!(Cell::Unknown.merge(peer), peer);
    }
}

#[test]
fn empty_gives_way_to_what_is_more_specific() {
    assert_eq!(Cell::Empty.merge(Cell::Unknown), Cell::Empty);
    assert_eq!(Cell::Empty.merge(Cell::Empty), Cell::Empty);
    assert_eq!(Cell::Empty.merge(Cell::Base), Cell::Base);
    assert_eq!(Cell::Empty.merge(Cell::Obstacle), Cell::Obstacle);
    assert_eq!(Cell::Empty.merge(Cell::Mineral), Cell::Mineral);
    assert_eq!(Cell::Empty.merge(Cell::Energy), Cell::Energy);
    assert_eq!(Cell::Empty.merge(Cell::SciencePOI), Cell::SciencePOI);
    assert_eq!(Cell::Empty.merge(Cell::Robot(3)), Cell::Robot(3));
}

#[test]
fn specific_cells_are_kept() {
    let specific = [
        Cell::Base,
        Cell::Obstacle,
        Cell::Mineral,
        Cell::Energy,
        Cell::SciencePOI,
        Cell::Robot(2),
    ];
    for local in specific {
        for peer in ALL {
            assert_eq!(local.merge(peer), local);
        }
    }
}

#[test]
fn merge_never_forgets() {
    for local in ALL {
        for peer in ALL {
            let merged = local.merge(peer);
            assert!(merged == local || merged == peer);
            if local != Cell::Unknown {
                assert_ne!(merged, Cell::Unknown);
            }
            assert_eq!(merged.merge(peer), merged);
        }
    }
}
