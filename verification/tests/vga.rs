use karte::driver::vga::{
    color256_to_rgb, color256_to_vga, nearest_vga_color, screen_size, VgaConsole, COLS, ROWS,
};

fn console() -> VgaConsole {
    let mut c = VgaConsole::new();
    c.init();
    c
}

fn row_text(c: &VgaConsole, row: usize) -> String {
    let mut s = String::new();
    for col in 0..COLS {
        s.push(c.cell(col, row).0 as char);
    }
    s.trim_end().to_string()
}

#[test]
fn screen_is_80_by_25() {
    assert_eq!(screen_size(), (80, 25));
}

#[test]
fn output_before_init_is_ignored() {
    let mut c = VgaConsole::new();
    assert!(c.putchar(b'x').is_empty());
    assert_eq!(c.cell(0, 0), (0, 0));
    assert_eq!(c.cursor_pos(), (0, 0));
}

#[test]
fn printable_text_advances_the_cursor() {
    let mut c = console();
    c.write_bytes(b"Hi");
    assert_eq!(c.cell(0, 0), (b'H', 0x07));
    assert_eq!(c.cell(1, 0), (b'i', 0x07));
    assert_eq!(c.cursor_pos(), (2, 0));
    assert_eq!(c.hardware_cursor(), 2);
}

#[test]
fn newline_carriage_return_tab_and_backspace() {
    let mut c = console();
    c.write_bytes(b"ab\ncd\rX\tY\x08\x08Z");
    assert_eq!(row_text(&c, 0), "ab");
    assert_eq!(row_text(&c, 1), "X      ZY");
    assert_eq!(c.cursor_pos(), (8, 1));
}

#[test]
fn text_wraps_at_the_last_column() {
    let mut c = console();
    let line = vec![b'x'; 81];
    c.write_bytes(&line);
    assert_eq!(c.cursor_pos(), (1, 1));
    assert_eq!(c.cell(0, 1).0, b'x');
}

#[test]
fn newline_on_the_last_row_scrolls() {
    let mut c = console();
    c.write_bytes(b"top");
    for _ in 0..ROWS {
        c.write_bytes(b"\n");
    }
    c.write_bytes(b"end");
    assert_eq!(c.cursor_pos(), (3, 24));
    assert_eq!(row_text(&c, 24), "end");
    assert_eq!(row_text(&c, 0), "");
}

#[test]
fn cursor_position_sequences() {
    let mut c = console();
    c.write_bytes(b"\x1b[5;10H");
    assert_eq!(c.cursor_pos(), (9, 4));
    c.write_bytes(b"\x1b[2A");
    assert_eq!(c.cursor_pos(), (9, 2));
    c.write_bytes(b"\x1b[100B");
    assert_eq!(c.cursor_pos(), (9, 24));
    c.write_bytes(b"\x1b[3C");
    assert_eq!(c.cursor_pos(), (12, 24));
    c.write_bytes(b"\x1b[D");
    assert_eq!(c.cursor_pos(), (11, 24));
    c.write_bytes(b"\x1b[H");
    assert_eq!(c.cursor_pos(), (0, 0));
    c.write_bytes(b"\x1b[7G");
    assert_eq!(c.cursor_pos(), (6, 0));
    c.write_bytes(b"\x1b[3d");
    assert_eq!(c.cursor_pos(), (6, 2));
    c.write_bytes(b"\x1b[2E");
    assert_eq!(c.cursor_pos(), (0, 4));
    c.write_bytes(b"\x1b[9F");
    assert_eq!(c.cursor_pos(), (0, 0));
    c.write_bytes(b"\x1b[99;99H");
    assert_eq!(c.cursor_pos(), (79, 24));
}

#[test]
fn save_and_restore_cursor() {
    let mut c = console();
    c.write_bytes(b"\x1b[3;4H\x1b[s\x1b[10;10H\x1b[u");
    assert_eq!(c.cursor_pos(), (3, 2));
    c.write_bytes(b"\x1b[6;6H\x1b7\x1b[H\x1b8");
    assert_eq!(c.cursor_pos(), (5, 5));
}

#[test]
fn erase_in_line_and_display() {
    let mut c = console();
    c.write_bytes(b"abcdef\r\n123456\x1b[1;3H\x1b[K");
    assert_eq!(row_text(&c, 0), "ab");
    assert_eq!(row_text(&c, 1), "123456");
    c.write_bytes(b"\x1b[2;3H\x1b[1K");
    assert_eq!(row_text(&c, 1), "   456");
    c.write_bytes(b"\x1b[2K");
    assert_eq!(row_text(&c, 1), "");
    c.write_bytes(b"\x1b[1;1Hxyz\x1b[1;2H\x1b[X");
    assert_eq!(row_text(&c, 0), "x z");
    c.write_bytes(b"\x1b[2J");
    assert_eq!(row_text(&c, 0), "");
    assert_eq!(c.cursor_pos(), (1, 0));
}

#[test]
fn erase_below_and_above_the_cursor() {
    let mut c = console();
    c.write_bytes(b"aaa\r\nbbb\r\nccc\x1b[2;2H\x1b[J");
    assert_eq!(row_text(&c, 0), "aaa");
    assert_eq!(row_text(&c, 1), "b");
    assert_eq!(row_text(&c, 2), "");
    c.write_bytes(b"\x1b[1;2H\x1b[1J");
    assert_eq!(row_text(&c, 0), "  a");
}

#[test]
fn colors_and_attributes() {
    let mut c = console();
    c.write_bytes(b"\x1b[31mR");
    assert_eq!(c.cell(0, 0), (b'R', 0x01));
    c.write_bytes(b"\x1b[1;44mB");
    assert_eq!(c.cell(1, 0), (b'B', 0x49));
    c.write_bytes(b"\x1b[5m");
    assert_eq!(c.current_attr(), 0xC9);
    c.write_bytes(b"\x1b[25;22;39;49m");
    assert_eq!(c.current_attr(), 0x07);
    c.write_bytes(b"\x1b[92;103m");
    assert_eq!(c.current_attr(), 0xBA);
    c.write_bytes(b"\x1b[8m");
    assert_eq!(c.current_attr(), 0xBB);
    c.write_bytes(b"\x1b[m");
    assert_eq!(c.current_attr(), 0x07);
    c.write_bytes(b"\x1b[7m");
    assert_eq!(c.current_attr(), 0x07);
}

#[test]
fn extended_colors_map_to_the_nearest_vga_color() {
    let mut c = console();
    c.write_bytes(b"\x1b[38;5;196m");
    assert_eq!(c.current_attr(), 0x01);
    c.write_bytes(b"\x1b[48;2;255;255;255m");
    assert_eq!(c.current_attr(), 0xF1);
}

#[test]
fn color_tables() {
    assert_eq!(color256_to_rgb(9), (255, 85, 85));
    assert_eq!(color256_to_rgb(16), (0, 0, 0));
    assert_eq!(color256_to_rgb(196), (255, 0, 0));
    assert_eq!(color256_to_rgb(231), (255, 255, 255));
    assert_eq!(color256_to_rgb(232), (8, 8, 8));
    assert_eq!(color256_to_rgb(255), (238, 238, 238));
    assert_eq!(nearest_vga_color(0, 0, 0), 0);
    assert_eq!(nearest_vga_color(250, 250, 250), 15);
    assert_eq!(nearest_vga_color(0, 0, 200), 4);
    assert_eq!(color256_to_vga(21), 4);
}

#[test]
fn cursor_visibility() {
    let mut c = console();
    c.write_bytes(b"\x1b[3;3H\x1b[?25l");
    assert_eq!(c.hardware_cursor(), 0xFFFF);
    c.write_bytes(b"\x1b[?25h");
    assert_eq!(c.hardware_cursor(), 162);
    // without `?` the mode sequences do nothing
    c.write_bytes(b"\x1b[25l");
    assert_eq!(c.hardware_cursor(), 162);
}

#[test]
fn status_reports_answer_the_host() {
    let mut c = console();
    assert_eq!(c.write_bytes(b"\x1b[5;10H\x1b[6n"), b"\x1b[05;10R".to_vec());
    assert_eq!(c.write_bytes(b"\x1b[5n"), b"\x1b[0n".to_vec());
    assert!(c.write_bytes(b"\x1b[n").is_empty());
}

#[test]
fn alternate_screen_keeps_the_main_screen() {
    let mut c = console();
    c.write_bytes(b"main\x1b[?1049h");
    assert_eq!(row_text(&c, 0), "");
    c.write_bytes(b"\x1b[10;10Halt");
    c.write_bytes(b"\x1b[?1049l");
    assert_eq!(row_text(&c, 0), "main");
    assert_eq!(row_text(&c, 9), "");
    assert_eq!(c.cursor_pos(), (4, 0));
}

#[test]
fn scroll_region_and_index() {
    let mut c = console();
    c.write_bytes(b"\x1b[2;4r");
    assert_eq!(c.cursor_pos(), (0, 1));
    c.write_bytes(b"r1\n");
    // ESC M on row 0 scrolls the whole screen down
    c.write_bytes(b"\x1b[H\x1bM");
    assert_eq!(row_text(&c, 2), "r1");
    assert_eq!(c.cursor_pos(), (0, 0));
    c.write_bytes(b"\x1b[2;1H\x1bM");
    assert_eq!(c.cursor_pos(), (0, 0));
    c.write_bytes(b"\x1bD");
    assert_eq!(c.cursor_pos(), (0, 1));
}

#[test]
fn region_scroll_keeps_rows_outside() {
    let mut c = console();
    c.write_bytes(b"keep\x1b[25;1Hlast\x1b[1;24r\x1b[25;1H\n");
    assert_eq!(row_text(&c, 0), "");
    assert_eq!(row_text(&c, 24), "last");
}

#[test]
fn insert_and_delete_lines() {
    let mut c = console();
    c.write_bytes(b"one\r\ntwo\r\nthree\x1b[2;1H\x1b[L");
    assert_eq!(row_text(&c, 1), "");
    assert_eq!(row_text(&c, 2), "two");
    assert_eq!(row_text(&c, 3), "three");
    c.write_bytes(b"\x1b[2M");
    assert_eq!(row_text(&c, 1), "three");
    assert_eq!(row_text(&c, 2), "");
    assert_eq!(row_text(&c, 0), "one");
}

#[test]
fn reset_restores_defaults() {
    let mut c = console();
    c.write_bytes(b"\x1b[31;44mtext\x1b[?25l\x1b[3;5r\x1bc");
    assert_eq!(c.current_attr(), 0x07);
    assert_eq!(c.cursor_pos(), (0, 0));
    assert_eq!(row_text(&c, 0), "");
    assert_eq!(c.hardware_cursor(), 0);
}

#[test]
fn osc_strings_are_skipped() {
    let mut c = console();
    c.write_bytes(b"\x1b]0;title\x07ok\x1b]2;t\x1b\\!");
    assert_eq!(row_text(&c, 0), "ok!");
}

#[test]
fn raw_mode_flag() {
    let mut c = console();
    assert!(!c.is_raw_mode());
    c.set_raw_mode(true);
    assert!(c.is_raw_mode());
}
