use pier_core::terminal::emulator::{
    first_value, Cell, Color, EmulatorPerformer, VtAction, VtEmulator,
};
use pier_core::terminal::SessionScreen;

fn is_blank(cell: &Cell) -> bool {
    cell.ch == ' '
        && cell.fg == Color::Default
        && cell.bg == Color::Default
        && !cell.bold
        && !cell.underline
}

fn assert_in_order(emu: &VtEmulator, cols: usize, rows: usize) {
    assert_eq!(emu.cols, cols);
    assert_eq!(emu.rows, rows);
    assert!(emu.cursor_x < cols);
    assert!(emu.cursor_y < rows);
    assert_eq!(emu.cells.len(), rows);
    for row in &emu.cells {
        assert_eq!(row.len(), cols);
    }
}

#[test]
fn test_print_basic() {
    let mut emu = VtEmulator::new(80, 24);
    emu.process(b"Hello, Pier!");
    assert_eq!(emu.get_line_text(0).trim(), "Hello, Pier!");
    assert_eq!(emu.cursor_x, 12);
    assert_eq!(emu.cursor_y, 0);
}

#[test]
fn test_newline() {
    let mut emu = VtEmulator::new(80, 24);
    emu.process(b"Line1\r\nLine2");
    assert_eq!(emu.get_line_text(0).trim(), "Line1");
    assert_eq!(emu.get_line_text(1).trim(), "Line2");
}

#[test]
fn test_cursor_movement() {
    let mut emu = VtEmulator::new(80, 24);
    // ESC[5;10H moves cursor to row 5, col 10
    emu.process(b"\x1b[5;10HX");
    assert_eq!(emu.cells[4][9].ch, 'X');
}

#[test]
fn test_clear_screen() {
    let mut emu = VtEmulator::new(80, 24);
    emu.process(b"Some text");
    emu.process(b"\x1b[2J");
    assert_eq!(emu.get_line_text(0).trim(), "");
}

#[test]
fn hello_world_fills_row_zero() {
    let mut emu = VtEmulator::new(80, 24);
    emu.process(b"Hello, World!");
    let mut expected = String::from("Hello, World!");
    while expected.len() < 80 {
        expected.push(' ');
    }
    assert_eq!(emu.get_line_text(0), expected);
    assert_eq!((emu.cursor_x, emu.cursor_y), (13, 0));
}

#[test]
fn cursor_position_is_one_based() {
    let mut emu = VtEmulator::new(80, 24);
    emu.process(b"\x1b[5;10HX");
    assert_eq!(emu.cells[4][9].ch, 'X');
    assert_eq!((emu.cursor_x, emu.cursor_y), (10, 4));
    emu.process(b"\x1b[H");
    assert_eq!((emu.cursor_x, emu.cursor_y), (0, 0));
    emu.process(b"\x1b[999;999f");
    assert_eq!((emu.cursor_x, emu.cursor_y), (79, 23));
}

#[test]
fn erase_display_blanks_every_cell() {
    let mut emu = VtEmulator::new(80, 24);
    emu.process(b"text\x1b[2J");
    for row in &emu.cells {
        for cell in row {
            assert!(is_blank(cell));
        }
    }
    assert_in_order(&emu, 80, 24);
}

#[test]
fn vt_scroll_drops_oldest_line() {
    let mut emu = VtEmulator::new(80, 24);
    let mut input = String::new();
    for i in 0..25 {
        if i > 0 {
            input.push('\n');
        }
        input.push_str(&format!("L{}", i));
    }
    emu.process(input.as_bytes());
    assert_eq!(emu.get_line_text(23).trim(), "L24");
    assert_eq!(emu.get_line_text(0).trim(), "L1");
    for row in 0..24 {
        assert!(!emu.get_line_text(row).contains("L0"));
    }
    assert_in_order(&emu, 80, 24);
    // One more line feed on the last row scrolls once more.
    emu.process(b"\n");
    assert_eq!(emu.get_line_text(22).trim(), "L24");
    assert_eq!(emu.get_line_text(23).trim(), "");
    assert_eq!(emu.get_line_text(0).trim(), "L2");
}

#[test]
fn printing_past_the_last_column_wraps() {
    let mut emu = VtEmulator::new(4, 2);
    emu.process(b"abcd");
    assert_eq!(emu.get_line_text(0), "abcd");
    assert_eq!((emu.cursor_x, emu.cursor_y), (0, 1));
    emu.process(b"efgh");
    // The second row filled up, so the screen scrolled.
    assert_eq!(emu.get_line_text(0), "efgh");
    assert_eq!(emu.get_line_text(1), "    ");
    assert_eq!((emu.cursor_x, emu.cursor_y), (0, 1));
    assert_in_order(&emu, 4, 2);
}

#[test]
fn controls_move_the_cursor() {
    let mut emu = VtEmulator::new(20, 5);
    emu.process(b"ab\x08");
    assert_eq!(emu.cursor_x, 1);
    emu.process(b"\x08\x08\x08");
    assert_eq!(emu.cursor_x, 0);
    emu.process(b"\t");
    assert_eq!(emu.cursor_x, 8);
    emu.process(b"x\t");
    assert_eq!(emu.cursor_x, 16);
    emu.process(b"\t");
    assert_eq!(emu.cursor_x, 19);
    emu.process(b"\r");
    assert_eq!(emu.cursor_x, 0);
    emu.process(b"abc\x0b");
    assert_eq!((emu.cursor_x, emu.cursor_y), (3, 1));
    emu.process(b"\x0c");
    assert_eq!((emu.cursor_x, emu.cursor_y), (3, 2));
    emu.process(b"\x07");
    assert_eq!((emu.cursor_x, emu.cursor_y), (3, 2));
}

#[test]
fn csi_moves_stop_at_the_border() {
    let mut emu = VtEmulator::new(10, 5);
    emu.process(b"\x1b[3;4H");
    assert_eq!((emu.cursor_x, emu.cursor_y), (3, 2));
    emu.process(b"\x1b[A");
    assert_eq!(emu.cursor_y, 1);
    emu.process(b"\x1b[9A");
    assert_eq!(emu.cursor_y, 0);
    emu.process(b"\x1b[2B");
    assert_eq!(emu.cursor_y, 2);
    emu.process(b"\x1b[99B");
    assert_eq!(emu.cursor_y, 4);
    emu.process(b"\x1b[C");
    assert_eq!(emu.cursor_x, 4);
    emu.process(b"\x1b[65535C");
    assert_eq!(emu.cursor_x, 9);
    emu.process(b"\x1b[2D");
    assert_eq!(emu.cursor_x, 7);
    emu.process(b"\x1b[0D");
    assert_eq!(emu.cursor_x, 6);
    emu.process(b"\x1b[100D");
    assert_eq!(emu.cursor_x, 0);
}

fn filled(cols: usize, rows: usize) -> VtEmulator {
    let mut emu = VtEmulator::new(cols, rows);
    for y in 0..rows {
        for x in 0..cols {
            emu.cells[y][x].ch = 'x';
        }
    }
    emu
}

fn picture(emu: &VtEmulator) -> Vec<String> {
    (0..emu.rows).map(|r| emu.get_line_text(r)).collect()
}

#[test]
fn erase_in_display_by_parameter() {
    let mut emu = filled(4, 3);
    emu.process(b"\x1b[2;3H\x1b[J");
    assert_eq!(picture(&emu), vec!["xxxx", "xx  ", "    "]);

    let mut emu = filled(4, 3);
    emu.process(b"\x1b[2;3H\x1b[1J");
    assert_eq!(picture(&emu), vec!["    ", "   x", "xxxx"]);

    let mut emu = filled(4, 3);
    emu.process(b"\x1b[2;3H\x1b[3J");
    assert_eq!(picture(&emu), vec!["    ", "    ", "    "]);

    let mut emu = filled(4, 3);
    emu.process(b"\x1b[2;3H\x1b[7J");
    assert_eq!(picture(&emu), vec!["xxxx", "xxxx", "xxxx"]);
    assert_eq!((emu.cursor_x, emu.cursor_y), (2, 1));
}

#[test]
fn erase_in_line_by_parameter() {
    let mut emu = filled(4, 3);
    emu.process(b"\x1b[2;3H\x1b[K");
    assert_eq!(picture(&emu), vec!["xxxx", "xx  ", "xxxx"]);

    let mut emu = filled(4, 3);
    emu.process(b"\x1b[2;3H\x1b[1K");
    assert_eq!(picture(&emu), vec!["xxxx", "   x", "xxxx"]);

    let mut emu = filled(4, 3);
    emu.process(b"\x1b[2;3H\x1b[2K");
    assert_eq!(picture(&emu), vec!["xxxx", "    ", "xxxx"]);

    let mut emu = filled(4, 3);
    emu.process(b"\x1b[2;3H\x1b[3K");
    assert_eq!(picture(&emu), vec!["xxxx", "xxxx", "xxxx"]);
}

#[test]
fn other_sequences_change_nothing() {
    let mut emu = VtEmulator::new(10, 3);
    emu.process(b"ab");
    // SGR, OSC (window title), DCS and a plain escape sequence.
    emu.process(b"\x1b[1;31m\x1b]0;title\x07\x1bPq#0\x1b\\\x1b7");
    emu.process(b"c");
    assert_eq!(emu.get_line_text(0), "abc       ");
    assert_eq!((emu.cursor_x, emu.cursor_y), (3, 0));
    for row in &emu.cells {
        for cell in row {
            assert_eq!(cell.fg, Color::Default);
            assert!(!cell.bold);
        }
    }
}

#[test]
fn a_sequence_may_be_split_between_calls() {
    let mut emu = VtEmulator::new(80, 24);
    emu.process(b"\x1b[5;");
    emu.process(b"10HX");
    assert_eq!(emu.cells[4][9].ch, 'X');
}

#[test]
fn multibyte_characters_are_printed() {
    let mut emu = VtEmulator::new(10, 2);
    emu.process("é✓".as_bytes());
    assert_eq!(emu.cells[0][0].ch, 'é');
    assert_eq!(emu.cells[0][1].ch, '✓');
    assert_eq!(emu.cursor_x, 2);
}

#[test]
fn cursor_stays_on_the_grid_whatever_is_fed() {
    let mut emu = VtEmulator::new(7, 3);
    let mut seed: u32 = 12345;
    let mut bytes = Vec::new();
    for _ in 0..5000 {
        seed = seed.wrapping_mul(1103515245).wrapping_add(12345);
        let pick = (seed >> 16) % 12;
        let b = match pick {
            0 => 0x1b,
            1 => b'[',
            2 => b';',
            3 => b'\n',
            4 => b'\r',
            5 => b'\t',
            6 => 0x08,
            7 => b'0' + ((seed >> 8) % 10) as u8,
            8 => b"ABCDHJKf"[((seed >> 8) % 8) as usize],
            _ => b'a' + ((seed >> 8) % 26) as u8,
        };
        bytes.push(b);
    }
    for chunk in bytes.chunks(37) {
        emu.process(chunk);
        assert_in_order(&emu, 7, 3);
    }
}

#[test]
fn applying_actions_directly() {
    let mut emu = VtEmulator::new(5, 2);
    let actions = vec![
        VtAction::Print('a'),
        VtAction::Execute(b'\n'),
        VtAction::CsiDispatch { params: vec![vec![1], vec![5]], action: 'H' },
        VtAction::Print('z'),
    ];
    emu.apply(&actions);
    assert_eq!(emu.get_line_text(0), "a   z");
    assert_eq!((emu.cursor_x, emu.cursor_y), (0, 1));
}

#[test]
fn performer_steps() {
    let mut p = EmulatorPerformer {
        cursor_x: 2,
        cursor_y: 1,
        cols: 3,
        rows: 2,
        cells: vec![vec![Cell::default(); 3]; 2],
    };
    p.cells[0][0].ch = 'q';
    p.cells[1][0].ch = 'r';
    p.newline();
    // On the last row a new line scrolls.
    assert_eq!((p.cursor_x, p.cursor_y), (0, 1));
    assert_eq!(p.cells[0][0].ch, 'r');
    assert_eq!(p.cells[1][0].ch, ' ');
    p.scroll_up();
    assert_eq!(p.cells[0][0].ch, ' ');
    assert_eq!(p.cells.len(), 2);
    assert_eq!(p.cells[1].len(), 3);
    p.print('k');
    assert_eq!(p.cells[1][0].ch, 'k');
    p.execute(b'\r');
    p.csi_dispatch(0, 0, 'A');
    assert_eq!((p.cursor_x, p.cursor_y), (0, 0));
    p.perform(&VtAction::Print('m'));
    assert_eq!(p.cells[0][0].ch, 'm');
    p.perform_all(&vec![VtAction::Execute(0x08), VtAction::Print('n')]);
    assert_eq!(p.cells[0][0].ch, 'n');
}

#[test]
fn first_value_defaults_to_zero() {
    let params = vec![vec![5, 6], vec![], vec![7]];
    assert_eq!(first_value(&params, 0), 5);
    assert_eq!(first_value(&params, 1), 0);
    assert_eq!(first_value(&params, 2), 7);
    assert_eq!(first_value(&params, 3), 0);
}

#[test]
fn resize_keeps_content_and_clamps_the_cursor() {
    let mut emu = VtEmulator::new(6, 3);
    emu.process(b"abcdef\x1b[3;6H");
    assert_eq!((emu.cursor_x, emu.cursor_y), (5, 2));
    emu.resize(4, 2);
    assert_eq!(emu.get_line_text(0), "abcd");
    assert_eq!((emu.cursor_x, emu.cursor_y), (3, 1));
    assert_in_order(&emu, 4, 2);
    emu.resize(8, 4);
    assert_eq!(emu.get_line_text(0), "abcd    ");
    assert_eq!(emu.get_line_text(3), "        ");
    assert_eq!((emu.cursor_x, emu.cursor_y), (3, 1));
    assert_in_order(&emu, 8, 4);
}

#[test]
fn line_text_of_a_missing_row_is_empty() {
    let emu = VtEmulator::new(6, 3);
    assert_eq!(emu.get_line_text(3), "");
    assert_eq!(emu.get_line_text(2), "      ");
}

#[test]
fn default_cell_is_a_blank() {
    assert!(is_blank(&Cell::default()));
}

#[test]
fn session_screen_is_made_of_spaces() {
    let mut screen = SessionScreen::new(3, 2);
    assert_eq!(screen.screen, vec![vec![' '; 3]; 2]);
    assert!(screen.scrollback.is_empty());
    screen.screen[0][1] = 'x';
    screen.screen[1][2] = 'y';
    screen.resize(2, 3);
    assert_eq!((screen.cols, screen.rows), (2, 3));
    assert_eq!(screen.screen, vec![vec![' ', 'x'], vec![' ', ' '], vec![' ', ' ']]);
    screen.resize(0, 1);
    assert_eq!(screen.screen, vec![Vec::<char>::new()]);
}
