//! VGA text console, 80×25, with the ANSI/VT100 escape sequences that
//! full-screen programs use.  The text buffer is held here as bytes
//! (character, attribute) per cell; whoever owns the hardware copies it to
//! 0xB8000 and programs the cursor registers from `hardware_cursor`.
use vstd::prelude::*;

verus! {

pub const COLS: usize = 80;
pub const ROWS: usize = 25;
/// Bytes per row of the text buffer.
pub const ROW_BYTES: usize = 160;
/// Bytes in the whole text buffer.
pub const SCREEN_BYTES: usize = 4000;
/// Light gray on black.
pub const DEFAULT_ATTR: u8 = 0x07;
/// Most parameters a CSI sequence collects.
pub const CSI_MAX_PARAMS: usize = 16;

/// Byte `i` of a blank cell run: a space, then the attribute.
pub open spec fn blank_byte(i: int, attr: u8) -> u8 {
    if i % 2 == 0 { 0x20 } else { attr }
}

/// Cells `lo..hi` (cell numbers, row * 80 + column) made blank.
pub open spec fn blank_fill(s: Seq<u8>, lo: int, hi: int, attr: u8) -> Seq<u8> {
    Seq::new(s.len(), |i: int| if 2 * lo <= i < 2 * hi { blank_byte(i, attr) } else { s[i] })
}

/// Rows `top..=bottom` moved up one row, the bottom row of the region
/// blank, the rows outside the region as they were.
pub open spec fn scroll_up_rows(s: Seq<u8>, top: int, bottom: int, attr: u8) -> Seq<u8> {
    Seq::new(
        s.len(),
        |i: int|
            if bottom <= top {
                s[i]
            } else if 160 * top <= i < 160 * bottom {
                s[i + 160]
            } else if 160 * bottom <= i < 160 * (bottom + 1) {
                blank_byte(i, attr)
            } else {
                s[i]
            },
    )
}

/// The whole screen moved down one row, the top row blank.
pub open spec fn scroll_down_all(s: Seq<u8>, attr: u8) -> Seq<u8> {
    Seq::new(s.len(), |i: int| if i < 160 { blank_byte(i, attr) } else { s[i - 160] })
}

/// `n` blank rows inserted at `row`; the rows from `row` on move down and
/// those pushed past the bottom are lost.
pub open spec fn insert_rows(s: Seq<u8>, row: int, n: int, attr: u8) -> Seq<u8> {
    Seq::new(
        s.len(),
        |i: int|
            if i < 160 * row {
                s[i]
            } else if i < 160 * (row + n) {
                blank_byte(i, attr)
            } else {
                s[i - 160 * n]
            },
    )
}

/// `n` rows deleted at `row`; the rows below move up and blank rows come in
/// at the bottom.
pub open spec fn delete_rows(s: Seq<u8>, row: int, n: int, attr: u8) -> Seq<u8> {
    Seq::new(
        s.len(),
        |i: int|
            if i < 160 * row {
                s[i]
            } else if i + 160 * n < 4000 {
                s[i + 160 * n]
            } else {
                blank_byte(i, attr)
            },
    )
}

/// Cell `k` set to `ch` with attribute `attr`.
pub open spec fn put_cell(s: Seq<u8>, k: int, ch: u8, attr: u8) -> Seq<u8> {
    s.update(2 * k, ch).update(2 * k + 1, attr)
}

fn fill_blank(screen: &mut Vec<u8>, lo: usize, hi: usize, attr: u8)
    requires
        old(screen).len() == SCREEN_BYTES,
        lo <= hi <= 2000,
    ensures
        final(screen)@ == blank_fill(old(screen)@, lo as int, hi as int, attr),
{
    let ghost s0 = screen@;
    let mut k = lo;
    while k < hi
        invariant
            lo <= k <= hi <= 2000,
            screen.len() == SCREEN_BYTES,
            s0.len() == SCREEN_BYTES,
            screen@ =~= blank_fill(s0, lo as int, k as int, attr),
        decreases hi - k,
    {
        screen.set(2 * k, 0x20);
        screen.set(2 * k + 1, attr);
        k = k + 1;
        assert(screen@ =~= blank_fill(s0, lo as int, k as int, attr));
    }
}

fn write_cell(screen: &mut Vec<u8>, k: usize, ch: u8, attr: u8)
    requires
        old(screen).len() == SCREEN_BYTES,
        k < 2000,
    ensures
        final(screen)@ == put_cell(old(screen)@, k as int, ch, attr),
{
    screen.set(2 * k, ch);
    screen.set(2 * k + 1, attr);
}

fn scroll_region_up(screen: &mut Vec<u8>, top: usize, bottom: usize, attr: u8)
    requires
        old(screen).len() == SCREEN_BYTES,
        top < ROWS,
        bottom < ROWS,
    ensures
        final(screen)@ == scroll_up_rows(old(screen)@, top as int, bottom as int, attr),
{
    let ghost s0 = screen@;
    if bottom <= top {
        assert(screen@ =~= scroll_up_rows(s0, top as int, bottom as int, attr));
        return;
    }
    let mut i = top * ROW_BYTES;
    let end = bottom * ROW_BYTES;
    while i < end
        invariant
            top * 160 <= i <= end == bottom * 160,
            top < bottom < 25,
            screen.len() == SCREEN_BYTES,
            s0.len() == SCREEN_BYTES,
            forall|j: int| 160 * top <= j < i ==> screen@[j] == s0[j + 160],
            forall|j: int| 0 <= j < 4000 && !(160 * top <= j < i) ==> screen@[j] == s0[j],
        decreases end - i,
    {
        let b = screen[i + ROW_BYTES];
        screen.set(i, b);
        i = i + 1;
    }
    fill_blank(screen, bottom * COLS, bottom * COLS + COLS, attr);
    assert(screen@ =~= scroll_up_rows(s0, top as int, bottom as int, attr));
}

fn scroll_screen_down(screen: &mut Vec<u8>, attr: u8)
    requires
        old(screen).len() == SCREEN_BYTES,
    ensures
        final(screen)@ == scroll_down_all(old(screen)@, attr),
{
    let ghost s0 = screen@;
    let mut i = SCREEN_BYTES;
    while i > ROW_BYTES
        invariant
            160 <= i <= 4000,
            screen.len() == SCREEN_BYTES,
            s0.len() == SCREEN_BYTES,
            forall|j: int| i <= j < 4000 ==> screen@[j] == s0[j - 160],
            forall|j: int| 0 <= j < i ==> screen@[j] == s0[j],
        decreases i,
    {
        let b = screen[i - 1 - ROW_BYTES];
        screen.set(i - 1, b);
        i = i - 1;
    }
    fill_blank(screen, 0, COLS, attr);
    assert(screen@ =~= scroll_down_all(s0, attr));
}

fn insert_blank_rows(screen: &mut Vec<u8>, row: usize, n: usize, attr: u8)
    requires
        old(screen).len() == SCREEN_BYTES,
        row < ROWS,
        n <= 0xFFFF,
    ensures
        final(screen)@ == insert_rows(old(screen)@, row as int, n as int, attr),
{
    let ghost s0 = screen@;
    let k = if n < ROWS - row { n } else { ROWS - row };
    let lo = (row + k) * ROW_BYTES;
    let shift = k * ROW_BYTES;
    let mut i = SCREEN_BYTES;
    while i > lo
        invariant
            lo <= i <= 4000,
            lo == (row + k) * 160,
            shift == k * 160,
            row + k <= 25,
            screen.len() == SCREEN_BYTES,
            s0.len() == SCREEN_BYTES,
            forall|j: int| i <= j < 4000 ==> screen@[j] == s0[j - shift],
            forall|j: int| 0 <= j < i ==> screen@[j] == s0[j],
        decreases i,
    {
        let b = screen[i - 1 - shift];
        screen.set(i - 1, b);
        i = i - 1;
    }
    fill_blank(screen, row * COLS, (row + k) * COLS, attr);
    assert(screen@ =~= insert_rows(s0, row as int, n as int, attr));
}

fn delete_screen_rows(screen: &mut Vec<u8>, row: usize, n: usize, attr: u8)
    requires
        old(screen).len() == SCREEN_BYTES,
        row < ROWS,
        n <= 0xFFFF,
    ensures
        final(screen)@ == delete_rows(old(screen)@, row as int, n as int, attr),
{
    let ghost s0 = screen@;
    let k = if n < ROWS - row { n } else { ROWS - row };
    let shift = k * ROW_BYTES;
    let end = SCREEN_BYTES - shift;
    let mut i = row * ROW_BYTES;
    while i < end
        invariant
            row * 160 <= i,
            i <= end,
            end == 4000 - shift,
            shift == k * 160,
            row + k <= 25,
            screen.len() == SCREEN_BYTES,
            s0.len() == SCREEN_BYTES,
            forall|j: int| 160 * row <= j < i ==> screen@[j] == s0[j + shift],
            forall|j: int| 0 <= j < 4000 && !(160 * row <= j < i) ==> screen@[j] == s0[j],
        decreases end - i,
    {
        let b = screen[i + shift];
        screen.set(i, b);
        i = i + 1;
    }
    fill_blank(screen, (ROWS - k) * COLS, 2000, attr);
    assert(screen@ =~= delete_rows(s0, row as int, n as int, attr));
}

// ─── Colors ─────────────────────────────────────────────────────────────

/// The 16 VGA colors as RGB.
pub open spec fn palette() -> Seq<(u8, u8, u8)> {
    seq![
        (0, 0, 0), (170, 0, 0), (0, 170, 0), (170, 85, 0),
        (0, 0, 170), (170, 0, 170), (0, 170, 170), (170, 170, 170),
        (85, 85, 85), (255, 85, 85), (85, 255, 85), (255, 255, 85),
        (85, 85, 255), (255, 85, 255), (85, 255, 255), (255, 255, 255),
    ]
}

fn palette_table() -> (r: [(u8, u8, u8); 16])
    ensures
        r@ == palette(),
{
    let r: [(u8, u8, u8); 16] = [
        (0, 0, 0), (170, 0, 0), (0, 170, 0), (170, 85, 0),
        (0, 0, 170), (170, 0, 170), (0, 170, 170), (170, 170, 170),
        (85, 85, 85), (255, 85, 85), (85, 255, 85), (255, 255, 85),
        (85, 85, 255), (255, 85, 255), (85, 255, 255), (255, 255, 255),
    ];
    assert(r@ =~= palette());
    r
}

/// Squared distance in RGB space from `(r, g, b)` to palette color `k`.
pub open spec fn color_dist(r: u8, g: u8, b: u8, k: int) -> int {
    let c = palette()[k];
    (r - c.0) * (r - c.0) + (g - c.1) * (g - c.1) + (b - c.2) * (b - c.2)
}

/// `k` is the nearest palette color, the first one on a tie.
pub open spec fn is_nearest(r: u8, g: u8, b: u8, k: int) -> bool {
    &&& 0 <= k < 16
    &&& forall|j: int| 0 <= j < k ==> color_dist(r, g, b, k) < color_dist(r, g, b, j)
    &&& forall|j: int| k < j < 16 ==> color_dist(r, g, b, k) <= color_dist(r, g, b, j)
}

pub open spec fn nearest_color(r: u8, g: u8, b: u8) -> u8 {
    choose|k: u8| is_nearest(r, g, b, k as int)
}

/// One component of the 6×6×6 xterm color cube.
pub open spec fn cube_level(v: int) -> u8 {
    if v == 0 { 0 } else { (55 + v * 40) as u8 }
}

/// The xterm 256-color palette: the 16 VGA colors, the color cube, and a
/// gray ramp.
pub open spec fn color256_rgb(idx: u8) -> (u8, u8, u8) {
    if idx < 16 {
        palette()[idx as int]
    } else if idx < 232 {
        let i = idx - 16;
        (cube_level(i / 36), cube_level((i / 6) % 6), cube_level(i % 6))
    } else {
        let v = (8 + (idx - 232) * 10) as u8;
        (v, v, v)
    }
}

pub fn color256_to_rgb(idx: u8) -> (r: (u8, u8, u8))
    ensures
        r == color256_rgb(idx),
{
    if idx < 16 {
        let t = palette_table();
        t[idx as usize]
    } else if idx < 232 {
        let i = (idx - 16) as usize;
        let r = i / 36;
        let g = (i / 6) % 6;
        let b = i % 6;
        (cube_component(r), cube_component(g), cube_component(b))
    } else {
        let v = 8 + (idx - 232) * 10;
        (v, v, v)
    }
}

fn cube_component(v: usize) -> (r: u8)
    requires
        v < 6,
    ensures
        r == cube_level(v as int),
{
    if v == 0 { 0 } else { (55 + v * 40) as u8 }
}

/// The palette color nearest to `(r, g, b)`; on a tie the lowest index.
pub fn nearest_vga_color(r: u8, g: u8, b: u8) -> (res: u8)
    ensures
        is_nearest(r, g, b, res as int),
        res == nearest_color(r, g, b),
{
    let t = palette_table();
    let mut best: u8 = 0;
    let mut best_dist: u32 = u32::MAX;
    let mut i: usize = 0;
    while i < 16
        invariant
            i <= 16,
            t@ == palette(),
            i == 0 ==> best == 0 && best_dist == u32::MAX,
            i > 0 ==> best < i && best_dist == color_dist(r, g, b, best as int),
            forall|j: int| 0 <= j < best ==> color_dist(r, g, b, best as int) < color_dist(r, g, b, j),
            forall|j: int| best < j < i ==> color_dist(r, g, b, best as int) <= color_dist(r, g, b, j),
        decreases 16 - i,
    {
        let (pr, pg, pb) = t[i];
        let dr = r as i32 - pr as i32;
        let dg = g as i32 - pg as i32;
        let db = b as i32 - pb as i32;
        assert(dr * dr <= 65025 && dg * dg <= 65025 && db * db <= 65025) by (nonlinear_arith)
            requires
                -255 <= dr <= 255,
                -255 <= dg <= 255,
                -255 <= db <= 255,
        ;
        assert(dr * dr >= 0 && dg * dg >= 0 && db * db >= 0) by (nonlinear_arith);
        let dist = (dr * dr + dg * dg + db * db) as u32;
        if dist < best_dist {
            best_dist = dist;
            best = i as u8;
        }
        i = i + 1;
    }
    proof {
        let k = choose|k: u8| is_nearest(r, g, b, k as int);
        assert(is_nearest(r, g, b, best as int));
        if k != best {
            if k < best {
                assert(color_dist(r, g, b, best as int) < color_dist(r, g, b, k as int));
            } else {
                assert(color_dist(r, g, b, k as int) < color_dist(r, g, b, best as int));
            }
        }
    }
    best
}

/// A 256-color index mapped to the nearest VGA color.
pub fn color256_to_vga(idx: u8) -> (r: u8)
    ensures
        r == ({
            let c = color256_rgb(idx);
            nearest_color(c.0, c.1, c.2)
        }),
{
    let (r, g, b) = color256_to_rgb(idx);
    nearest_vga_color(r, g, b)
}

// ─── Console state ──────────────────────────────────────────────────────

/// Where the escape-sequence parser stands.
#[derive(Clone, Copy, PartialEq, Eq, Structural, Debug)]
pub enum ParseState {
    Normal,
    /// After ESC.
    Escape,
    /// After ESC [, collecting parameters.
    Csi,
    /// Inside an OSC, DCS or APC string, skipped up to BEL or ESC.
    Osc,
}

/// Graphic rendition set by SGR sequences.
#[derive(Clone, Copy, PartialEq, Eq, Structural, Debug)]
pub struct Attrs {
    pub fg: u8,
    pub bg: u8,
    pub bold: bool,
    pub reverse: bool,
    pub blink: bool,
    pub faint: bool,
    pub concealed: bool,
}

pub open spec fn default_attrs() -> Attrs {
    Attrs { fg: 7, bg: 0, bold: false, reverse: false, blink: false, faint: false, concealed: false }
}

/// The VGA attribute byte of a rendition: bold brightens a dark
/// foreground, concealed text takes the background color, blink is bit 7.
/// Reverse video leaves the byte as it is.
pub open spec fn attr_byte(a: Attrs) -> u8 {
    let fg = if a.bold && a.fg < 8 { (a.fg + 8) as u8 } else { a.fg };
    if a.concealed {
        ((a.bg & 0x0F) << 4u8) | (a.bg & 0x0F)
    } else {
        let base = ((a.bg & 0x0F) << 4u8) | (fg & 0x0F);
        if a.blink { base | 0x80 } else { base }
    }
}

fn attr_of(a: Attrs) -> (r: u8)
    ensures
        r == attr_byte(a),
{
    let mut fg = a.fg;
    if a.bold && fg < 8 {
        fg = fg + 8;
    }
    if a.concealed {
        return ((a.bg & 0x0F) << 4u8) | (a.bg & 0x0F);
    }
    let base = ((a.bg & 0x0F) << 4u8) | (fg & 0x0F);
    if a.blink { base | 0x80 } else { base }
}

/// The console as a value.
pub struct TermView {
    pub initialized: bool,
    pub raw_mode: bool,
    pub state: ParseState,
    pub params: Seq<u16>,
    pub count: int,
    pub question: bool,
    pub col: int,
    pub row: int,
    pub visible: bool,
    pub attrs: Attrs,
    pub cached: u8,
    pub top: int,
    pub bottom: int,
    pub saved_col: int,
    pub saved_row: int,
    pub alt_saved: bool,
    pub alt: Seq<u8>,
    pub screen: Seq<u8>,
}

/// The text console: parser, cursor, rendition, scroll region, the text
/// buffer and the saved main screen while the alternate one is shown.
pub struct VgaConsole {
    initialized: bool,
    raw_mode: bool,
    state: ParseState,
    params: Vec<u16>,
    param_count: usize,
    has_question: bool,
    col: usize,
    row: usize,
    cursor_visible: bool,
    attrs: Attrs,
    cached_attr: u8,
    scroll_top: usize,
    scroll_bottom: usize,
    saved_col: usize,
    saved_row: usize,
    alt_saved: bool,
    alt_screen: Vec<u8>,
    screen: Vec<u8>,
}

impl View for VgaConsole {
    type V = TermView;

    closed spec fn view(&self) -> TermView {
        TermView {
            initialized: self.initialized,
            raw_mode: self.raw_mode,
            state: self.state,
            params: self.params@,
            count: self.param_count as int,
            question: self.has_question,
            col: self.col as int,
            row: self.row as int,
            visible: self.cursor_visible,
            attrs: self.attrs,
            cached: self.cached_attr,
            top: self.scroll_top as int,
            bottom: self.scroll_bottom as int,
            saved_col: self.saved_col as int,
            saved_row: self.saved_row as int,
            alt_saved: self.alt_saved,
            alt: self.alt_screen@,
            screen: self.screen@,
        }
    }
}

/// What every reachable console state satisfies.
pub open spec fn term_wf(t: TermView) -> bool {
    &&& t.screen.len() == 4000
    &&& t.alt.len() == 4000
    &&& t.params.len() == 16
    &&& 0 <= t.count <= 16
    &&& t.state == ParseState::Csi ==> t.count < 16
    &&& 0 <= t.col < 80
    &&& 0 <= t.row < 25
    &&& 0 <= t.top < t.bottom < 25
    &&& 0 <= t.saved_col < 80
    &&& 0 <= t.saved_row < 25
}

/// The cell under the cursor.
pub open spec fn cursor_cell(t: TermView) -> int {
    t.row * 80 + t.col
}

/// Down one row; at the bottom of the screen the scroll region scrolls up.
pub open spec fn line_feed(t: TermView) -> TermView {
    if t.row + 1 >= 25 {
        TermView { screen: scroll_up_rows(t.screen, t.top, t.bottom, attr_byte(t.attrs)), row: 24, ..t }
    } else {
        TermView { row: t.row + 1, ..t }
    }
}

/// Past the last column: to the start of the next row.
pub open spec fn wrap(t: TermView) -> TermView {
    if t.col >= 80 { line_feed(TermView { col: 0, ..t }) } else { t }
}

/// A printable byte: written with the cached attribute, cursor advanced.
pub open spec fn print_byte(t: TermView, c: u8) -> TermView {
    wrap(TermView { screen: put_cell(t.screen, cursor_cell(t), c, t.cached), col: t.col + 1, ..t })
}

/// Tab: blanks up to the next multiple of 8 columns.
pub open spec fn tab(t: TermView) -> TermView {
    let spaces = 8 - t.col % 8;
    wrap(TermView {
        screen: blank_fill(t.screen, cursor_cell(t), cursor_cell(t) + spaces, attr_byte(t.attrs)),
        col: t.col + spaces,
        ..t
    })
}

pub open spec fn in_normal(t: TermView, c: u8) -> TermView {
    if c == 0x1B {
        TermView { state: ParseState::Escape, ..t }
    } else if c == 0x0A {
        line_feed(TermView { col: 0, ..t })
    } else if c == 0x0D {
        TermView { col: 0, ..t }
    } else if c == 0x09 {
        tab(t)
    } else if c == 0x08 {
        if t.col > 0 { TermView { col: t.col - 1, ..t } } else { t }
    } else if c >= 0x20 {
        print_byte(t, c)
    } else {
        t
    }
}

/// ESC c: blank screen, cursor home, default rendition and scroll region,
/// cursor shown.
pub open spec fn reset(t: TermView) -> TermView {
    TermView {
        screen: blank_fill(t.screen, 0, 2000, DEFAULT_ATTR),
        col: 0,
        row: 0,
        attrs: default_attrs(),
        cached: attr_byte(default_attrs()),
        top: 0,
        bottom: 24,
        visible: true,
        state: ParseState::Normal,
        ..t
    }
}

pub open spec fn in_escape(t: TermView, c: u8) -> TermView {
    let n = TermView { state: ParseState::Normal, ..t };
    if c == 0x5B {
        TermView {
            state: ParseState::Csi,
            count: 0,
            question: false,
            params: Seq::new(16, |i: int| 0u16),
            ..t
        }
    } else if c == 0x63 {
        reset(t)
    } else if c == 0x37 {
        TermView { saved_col: t.col, saved_row: t.row, ..n }
    } else if c == 0x38 {
        TermView { col: t.saved_col, row: t.saved_row, ..n }
    } else if c == 0x44 {
        line_feed(n)
    } else if c == 0x4D {
        if t.row == 0 {
            TermView { screen: scroll_down_all(t.screen, attr_byte(t.attrs)), ..n }
        } else {
            TermView { row: t.row - 1, ..n }
        }
    } else if c == 0x5D || c == 0x5F || c == 0x50 {
        TermView { state: ParseState::Osc, ..t }
    } else {
        n
    }
}

pub open spec fn in_osc(t: TermView, c: u8) -> TermView {
    if c == 0x07 {
        TermView { state: ParseState::Normal, ..t }
    } else if c == 0x1B {
        TermView { state: ParseState::Escape, ..t }
    } else {
        t
    }
}

/// Parameter `idx` of the sequence, or `default` where it is missing or 0.
pub open spec fn param(t: TermView, idx: int, default: int) -> int {
    if idx < t.count && t.params[idx] != 0 { t.params[idx] as int } else { default }
}

/// `max(v - 1, 0)`, at most `hi`.
pub open spec fn one_based(v: int, hi: int) -> int {
    let z = if v >= 1 { v - 1 } else { 0 };
    if z < hi { z } else { hi }
}

pub open spec fn min(a: int, b: int) -> int {
    if a < b { a } else { b }
}

/// One SGR parameter at `i`: the new rendition and the index of the last
/// parameter it used (38 and 48 take 2 or 4 more).
pub open spec fn sgr_one(a: Attrs, ps: Seq<u16>, count: int, i: int) -> (Attrs, int) {
    let p = ps[i];
    if p == 0 {
        (default_attrs(), i)
    } else if p == 1 {
        (Attrs { bold: true, ..a }, i)
    } else if p == 2 {
        (Attrs { faint: true, ..a }, i)
    } else if p == 5 {
        (Attrs { blink: true, ..a }, i)
    } else if p == 7 {
        (Attrs { reverse: true, ..a }, i)
    } else if p == 8 {
        (Attrs { concealed: true, ..a }, i)
    } else if p == 22 {
        (Attrs { bold: false, faint: false, ..a }, i)
    } else if p == 25 {
        (Attrs { blink: false, ..a }, i)
    } else if p == 27 {
        (Attrs { reverse: false, ..a }, i)
    } else if p == 28 {
        (Attrs { concealed: false, ..a }, i)
    } else if 30 <= p <= 37 {
        (Attrs { fg: (p - 30) as u8, ..a }, i)
    } else if p == 39 {
        (Attrs { fg: 7, ..a }, i)
    } else if 40 <= p <= 47 {
        (Attrs { bg: (p - 40) as u8, ..a }, i)
    } else if p == 49 {
        (Attrs { bg: 0, ..a }, i)
    } else if 90 <= p <= 97 {
        (Attrs { fg: (p - 82) as u8, ..a }, i)
    } else if 100 <= p <= 107 {
        (Attrs { bg: (p - 92) as u8, ..a }, i)
    } else if (p == 38 || p == 48) && i + 1 < count {
        let m = ps[i + 1];
        if m == 5 && i + 2 < count {
            let c = color256_rgb(ps[i + 2] as u8);
            let v = nearest_color(c.0, c.1, c.2);
            (if p == 38 { Attrs { fg: v, ..a } } else { Attrs { bg: v, ..a } }, i + 2)
        } else if m == 2 && i + 4 < count {
            let v = nearest_color(ps[i + 2] as u8, ps[i + 3] as u8, ps[i + 4] as u8);
            (if p == 38 { Attrs { fg: v, ..a } } else { Attrs { bg: v, ..a } }, i + 4)
        } else {
            (a, i)
        }
    } else {
        (a, i)
    }
}

/// The parameters from `i` on applied in turn.
pub open spec fn sgr_from(a: Attrs, ps: Seq<u16>, count: int, i: int) -> Attrs
    decreases count - i,
{
    if i < 0 || i >= count {
        a
    } else {
        let (b, j) = sgr_one(a, ps, count, i);
        if j < i { a } else { sgr_from(b, ps, count, j + 1) }
    }
}

/// SGR: no parameter means a single 0.
pub open spec fn sgr(t: TermView) -> TermView {
    let t1 = if t.count == 0 { TermView { params: t.params.update(0, 0), count: 1, ..t } } else { t };
    let a = sgr_from(t1.attrs, t1.params, t1.count, 0);
    TermView { attrs: a, cached: attr_byte(a), ..t1 }
}

/// Decimal reply to a cursor position report.
pub open spec fn position_report(t: TermView) -> Seq<u8> {
    let r = t.row + 1;
    let c = t.col + 1;
    seq![0x1Bu8, 0x5B, (0x30 + r / 10) as u8, (0x30 + r % 10) as u8, 0x3B,
        (0x30 + c / 10) as u8, (0x30 + c % 10) as u8, 0x52]
}

/// Private modes 47, 1047 and 1049: the alternate screen.
pub open spec fn is_alt_mode(m: int) -> bool {
    m == 47 || m == 1047 || m == 1049
}

/// The effect of a complete CSI sequence with final byte `f`, and the bytes
/// it sends back to the host.
#[verifier::opaque]
pub open spec fn csi_apply(t: TermView, f: u8) -> (TermView, Seq<u8>) {
    let attr = attr_byte(t.attrs);
    let cur = cursor_cell(t);
    let line = t.row * 80;
    let none = Seq::<u8>::empty();
    if f == 0x48 || f == 0x66 {
        (TermView { row: one_based(param(t, 0, 1), 24), col: one_based(param(t, 1, 1), 79), ..t }, none)
    } else if f == 0x41 {
        (TermView { row: if t.row >= param(t, 0, 1) { t.row - param(t, 0, 1) } else { 0 }, ..t }, none)
    } else if f == 0x42 {
        (TermView { row: min(t.row + param(t, 0, 1), 24), ..t }, none)
    } else if f == 0x43 {
        (TermView { col: min(t.col + param(t, 0, 1), 79), ..t }, none)
    } else if f == 0x44 {
        (TermView { col: if t.col >= param(t, 0, 1) { t.col - param(t, 0, 1) } else { 0 }, ..t }, none)
    } else if f == 0x45 {
        (TermView { row: min(t.row + param(t, 0, 1), 24), col: 0, ..t }, none)
    } else if f == 0x46 {
        (TermView { row: if t.row >= param(t, 0, 1) { t.row - param(t, 0, 1) } else { 0 }, col: 0, ..t }, none)
    } else if f == 0x47 {
        (TermView { col: one_based(param(t, 0, 1), 79), ..t }, none)
    } else if f == 0x64 {
        (TermView { row: one_based(param(t, 0, 1), 24), ..t }, none)
    } else if f == 0x4A {
        let m = param(t, 0, 0);
        let s = if m == 0 {
            blank_fill(t.screen, cur, 2000, attr)
        } else if m == 1 {
            blank_fill(t.screen, 0, cur + 1, attr)
        } else if m == 2 || m == 3 {
            blank_fill(t.screen, 0, 2000, attr)
        } else {
            t.screen
        };
        (TermView { screen: s, ..t }, none)
    } else if f == 0x4B {
        let m = param(t, 0, 0);
        let s = if m == 0 {
            blank_fill(t.screen, cur, line + 80, attr)
        } else if m == 1 {
            blank_fill(t.screen, line, cur + 1, attr)
        } else if m == 2 {
            blank_fill(t.screen, line, line + 80, attr)
        } else {
            t.screen
        };
        (TermView { screen: s, ..t }, none)
    } else if f == 0x58 {
        (TermView { screen: blank_fill(t.screen, cur, min(cur + param(t, 0, 1), line + 80), attr), ..t }, none)
    } else if f == 0x6D {
        (sgr(t), none)
    } else if f == 0x68 {
        let m = param(t, 0, 0);
        if !t.question {
            (t, none)
        } else if m == 25 {
            (TermView { visible: true, ..t }, none)
        } else if is_alt_mode(m) && !t.alt_saved {
            let t1 = TermView { alt: t.screen, alt_saved: true, screen: blank_fill(t.screen, 0, 2000, attr), ..t };
            (if m == 1049 { TermView { saved_col: t.col, saved_row: t.row, ..t1 } } else { t1 }, none)
        } else {
            (t, none)
        }
    } else if f == 0x6C {
        let m = param(t, 0, 0);
        if !t.question {
            (t, none)
        } else if m == 25 {
            (TermView { visible: false, ..t }, none)
        } else if is_alt_mode(m) && t.alt_saved {
            let t1 = TermView { screen: t.alt, alt_saved: false, ..t };
            (if m == 1049 { TermView { col: t.saved_col, row: t.saved_row, ..t1 } } else { t1 }, none)
        } else {
            (t, none)
        }
    } else if f == 0x73 {
        (TermView { saved_col: t.col, saved_row: t.row, ..t }, none)
    } else if f == 0x75 {
        (TermView { col: t.saved_col, row: t.saved_row, ..t }, none)
    } else if f == 0x6E {
        let m = param(t, 0, 0);
        (t, if m == 6 { position_report(t) } else if m == 5 { seq![0x1Bu8, 0x5B, 0x30, 0x6E] } else { none })
    } else if f == 0x72 {
        let top = one_based(param(t, 0, 1), 24);
        let b0 = if t.count > 1 && t.params[1] != 0 { min(t.params[1] as int, 25) } else { 25 };
        let b1 = if b0 >= 1 { b0 - 1 } else { 0 };
        let bottom = if b1 < top { top } else { b1 };
        if bottom > top {
            (TermView { top, bottom, row: top, col: 0, ..t }, none)
        } else {
            (t, none)
        }
    } else if f == 0x4C {
        (TermView { screen: insert_rows(t.screen, t.row, param(t, 0, 1), attr), ..t }, none)
    } else if f == 0x4D {
        (TermView { screen: delete_rows(t.screen, t.row, param(t, 0, 1), attr), ..t }, none)
    } else {
        (t, none)
    }
}

/// A byte inside a CSI sequence: digits build the current parameter
/// (wrapping at 16 bits), `;` starts the next one, `?` marks a private mode,
/// a final byte 0x40..=0x7E runs the sequence.
pub open spec fn in_csi(t: TermView, c: u8) -> (TermView, Seq<u8>) {
    let none = Seq::<u8>::empty();
    if 0x30 <= c <= 0x39 {
        if t.count < 16 {
            let v = ((t.params[t.count] * 10 + (c - 0x30)) % 65536) as u16;
            (TermView { params: t.params.update(t.count, v), ..t }, none)
        } else {
            (t, none)
        }
    } else if c == 0x3B {
        (if t.count < 15 { TermView { count: t.count + 1, ..t } } else { t }, none)
    } else if c == 0x3F {
        (TermView { question: true, ..t }, none)
    } else if 0x20 <= c <= 0x2F {
        (t, none)
    } else if 0x40 <= c <= 0x7E {
        let n = if t.count == 0 && t.params[0] == 0 { 0 } else { t.count + 1 };
        let (t1, out) = csi_apply(TermView { count: n, ..t }, c);
        (TermView { state: ParseState::Normal, ..t1 }, out)
    } else {
        (TermView { state: ParseState::Normal, ..t }, none)
    }
}

/// One byte written to the console: the state after it and the bytes sent
/// back to the host.  Before `init` the console ignores everything.
pub open spec fn put_byte(t: TermView, c: u8) -> (TermView, Seq<u8>) {
    if !t.initialized {
        (t, Seq::empty())
    } else {
        match t.state {
            ParseState::Normal => (in_normal(t, c), Seq::empty()),
            ParseState::Escape => (in_escape(t, c), Seq::empty()),
            ParseState::Csi => in_csi(t, c),
            ParseState::Osc => (in_osc(t, c), Seq::empty()),
        }
    }
}

/// The console before `init`: nothing shown yet, the buffer zeroed.
pub open spec fn initial_view() -> TermView {
    TermView {
        initialized: false,
        raw_mode: false,
        state: ParseState::Normal,
        params: Seq::new(16, |i: int| 0u16),
        count: 0,
        question: false,
        col: 0,
        row: 0,
        visible: true,
        attrs: default_attrs(),
        cached: 0x07,
        top: 0,
        bottom: 24,
        saved_col: 0,
        saved_row: 0,
        alt_saved: false,
        alt: Seq::new(4000, |i: int| 0u8),
        screen: Seq::new(4000, |i: int| 0u8),
    }
}

/// Text columns and rows of the screen.
pub fn screen_size() -> (r: (usize, usize))
    ensures
        r == (COLS, ROWS),
{
    (COLS, ROWS)
}

fn zeroed<T: Copy>(n: usize, zero: T) -> (r: Vec<T>)
    ensures
        r@ == Seq::new(n as nat, |i: int| zero),
{
    let mut v: Vec<T> = Vec::new();
    while v.len() < n
        invariant
            v.len() <= n,
            v@ == Seq::new(v.len() as nat, |i: int| zero),
        decreases n - v.len(),
    {
        v.push(zero);
        assert(v@ =~= Seq::new(v.len() as nat, |i: int| zero));
    }
    v
}

impl VgaConsole {
    pub fn new() -> (r: Self)
        ensures
            r@ == initial_view(),
            term_wf(r@),
    {
        let r = VgaConsole {
            initialized: false,
            raw_mode: false,
            state: ParseState::Normal,
            params: zeroed(CSI_MAX_PARAMS, 0u16),
            param_count: 0,
            has_question: false,
            col: 0,
            row: 0,
            cursor_visible: true,
            attrs: Attrs { fg: 7, bg: 0, bold: false, reverse: false, blink: false, faint: false, concealed: false },
            cached_attr: DEFAULT_ATTR,
            scroll_top: 0,
            scroll_bottom: ROWS - 1,
            saved_col: 0,
            saved_row: 0,
            alt_saved: false,
            alt_screen: zeroed(SCREEN_BYTES, 0u8),
            screen: zeroed(SCREEN_BYTES, 0u8),
        };
        assert(r@.params =~= initial_view().params);
        r
    }

    /// Blanks the screen with the default attribute and homes the cursor.
    pub fn clear_screen(&mut self)
        requires
            term_wf(old(self)@),
        ensures
            final(self)@ == (TermView {
                screen: blank_fill(old(self)@.screen, 0, 2000, DEFAULT_ATTR),
                col: 0,
                row: 0,
                ..old(self)@
            }),
            term_wf(final(self)@),
    {
        fill_blank(&mut self.screen, 0, 2000, DEFAULT_ATTR);
        self.col = 0;
        self.row = 0;
    }

    /// Clears the screen and starts taking output.
    pub fn init(&mut self)
        requires
            term_wf(old(self)@),
        ensures
            final(self)@ == (TermView {
                screen: blank_fill(old(self)@.screen, 0, 2000, DEFAULT_ATTR),
                col: 0,
                row: 0,
                initialized: true,
                ..old(self)@
            }),
            term_wf(final(self)@),
    {
        self.clear_screen();
        self.initialized = true;
    }

    /// Whether a full-screen program owns the screen (kernel messages are
    /// then kept off it).
    pub fn is_raw_mode(&self) -> (r: bool)
        ensures
            r == self@.raw_mode,
    {
        self.raw_mode
    }

    pub fn set_raw_mode(&mut self, enabled: bool)
        ensures
            final(self)@ == (TermView { raw_mode: enabled, ..old(self)@ }),
    {
        self.raw_mode = enabled;
    }

    /// Cursor column and row, from 0.
    pub fn cursor_pos(&self) -> (r: (usize, usize))
        ensures
            r.0 == self@.col,
            r.1 == self@.row,
    {
        (self.col, self.row)
    }

    /// The value for the CRT cursor location registers: the cursor cell, or
    /// 0xFFFF (off screen) while the cursor is hidden.
    pub fn hardware_cursor(&self) -> (r: u16)
        requires
            term_wf(self@),
        ensures
            r == (if self@.visible { cursor_cell(self@) } else { 0xFFFF }),
    {
        if !self.cursor_visible {
            0xFFFF
        } else {
            (self.row * COLS + self.col) as u16
        }
    }

    /// Character and attribute of a cell.
    pub fn cell(&self, col: usize, row: usize) -> (r: (u8, u8))
        requires
            term_wf(self@),
            col < COLS,
            row < ROWS,
        ensures
            r.0 == self@.screen[2 * (row * 80 + col)],
            r.1 == self@.screen[2 * (row * 80 + col) + 1],
    {
        let k = row * COLS + col;
        (self.screen[2 * k], self.screen[2 * k + 1])
    }

    /// The attribute byte for newly printed text.
    pub fn current_attr(&self) -> (r: u8)
        ensures
            r == self@.cached,
    {
        self.cached_attr
    }

    fn feed_line(&mut self)
        requires
            term_wf(old(self)@),
        ensures
            final(self)@ == line_feed(old(self)@),
            term_wf(final(self)@),
    {
        if self.row + 1 >= ROWS {
            let a = attr_of(self.attrs);
            scroll_region_up(&mut self.screen, self.scroll_top, self.scroll_bottom, a);
            self.row = ROWS - 1;
        } else {
            self.row = self.row + 1;
        }
    }

    fn print(&mut self, c: u8)
        requires
            term_wf(old(self)@),
        ensures
            final(self)@ == print_byte(old(self)@, c),
            term_wf(final(self)@),
    {
        write_cell(&mut self.screen, self.row * COLS + self.col, c, self.cached_attr);
        if self.col + 1 >= COLS {
            self.col = 0;
            self.feed_line();
        } else {
            self.col = self.col + 1;
        }
    }

    fn tab(&mut self)
        requires
            term_wf(old(self)@),
        ensures
            final(self)@ == tab(old(self)@),
            term_wf(final(self)@),
    {
        let col = self.col;
        let next_tab = (col + 8) & !7usize;
        assert(((col + 8) as usize) & !7usize == col + 8 - col % 8) by (bit_vector)
            requires
                col < 80usize,
        ;
        let spaces = if next_tab < COLS { next_tab - col } else { COLS - col };
        let cur = self.row * COLS + col;
        let a = attr_of(self.attrs);
        fill_blank(&mut self.screen, cur, cur + spaces, a);
        if col + spaces >= COLS {
            self.col = 0;
            self.feed_line();
        } else {
            self.col = col + spaces;
        }
    }
}

fn sgr_step(a: Attrs, ps: &Vec<u16>, count: usize, i: usize) -> (r: (Attrs, usize))
    requires
        ps.len() == 16,
        i < count <= 16,
    ensures
        (r.0, r.1 as int) == sgr_one(a, ps@, count as int, i as int),
        i <= r.1 < count,
{
    let p = ps[i];
    if p == 0 {
        (Attrs { fg: 7, bg: 0, bold: false, reverse: false, blink: false, faint: false, concealed: false }, i)
    } else if p == 1 {
        (Attrs { bold: true, ..a }, i)
    } else if p == 2 {
        (Attrs { faint: true, ..a }, i)
    } else if p == 5 {
        (Attrs { blink: true, ..a }, i)
    } else if p == 7 {
        (Attrs { reverse: true, ..a }, i)
    } else if p == 8 {
        (Attrs { concealed: true, ..a }, i)
    } else if p == 22 {
        (Attrs { bold: false, faint: false, ..a }, i)
    } else if p == 25 {
        (Attrs { blink: false, ..a }, i)
    } else if p == 27 {
        (Attrs { reverse: false, ..a }, i)
    } else if p == 28 {
        (Attrs { concealed: false, ..a }, i)
    } else if 30 <= p && p <= 37 {
        (Attrs { fg: (p - 30) as u8, ..a }, i)
    } else if p == 39 {
        (Attrs { fg: 7, ..a }, i)
    } else if 40 <= p && p <= 47 {
        (Attrs { bg: (p - 40) as u8, ..a }, i)
    } else if p == 49 {
        (Attrs { bg: 0, ..a }, i)
    } else if 90 <= p && p <= 97 {
        (Attrs { fg: (p - 90 + 8) as u8, ..a }, i)
    } else if 100 <= p && p <= 107 {
        (Attrs { bg: (p - 100 + 8) as u8, ..a }, i)
    } else if (p == 38 || p == 48) && i + 1 < count {
        let m = ps[i + 1];
        if m == 5 && i + 2 < count {
            let v = color256_to_vga(ps[i + 2] as u8);
            (if p == 38 { Attrs { fg: v, ..a } } else { Attrs { bg: v, ..a } }, i + 2)
        } else if m == 2 && i + 4 < count {
            let v = nearest_vga_color(ps[i + 2] as u8, ps[i + 3] as u8, ps[i + 4] as u8);
            (if p == 38 { Attrs { fg: v, ..a } } else { Attrs { bg: v, ..a } }, i + 4)
        } else {
            (a, i)
        }
    } else {
        (a, i)
    }
}

impl VgaConsole {
    /// Parameter `idx` of the sequence, or `default` where it is missing or 0.
    fn csi_param(&self, idx: usize, default: u16) -> (r: u16)
        requires
            self@.params.len() == 16,
            self@.count <= 16,
        ensures
            r == param(self@, idx as int, default as int),
    {
        if idx < self.param_count && idx < CSI_MAX_PARAMS && self.params[idx] != 0 {
            self.params[idx]
        } else {
            default
        }
    }

    fn apply_sgr(&mut self)
        requires
            term_wf(TermView { state: ParseState::Normal, ..old(self)@ }),
        ensures
            final(self)@ == sgr(old(self)@),
    {
        if self.param_count == 0 {
            self.params.set(0, 0);
            self.param_count = 1;
        }
        let ghost t1 = self@;
        let count = self.param_count;
        let mut a = self.attrs;
        let mut i: usize = 0;
        while i < count
            invariant
                count == self.param_count <= 16,
                self.params.len() == 16,
                self@ == t1,
                i <= count,
                sgr_from(a, self.params@, count as int, i as int) == sgr_from(t1.attrs, t1.params, t1.count, 0),
            decreases count - i,
        {
            let (b, j) = sgr_step(a, &self.params, count, i);
            a = b;
            i = j + 1;
        }
        self.attrs = a;
        self.cached_attr = attr_of(a);
    }
}

/// A CSI final byte that moves the cursor.
pub open spec fn is_cursor_final(f: u8) -> bool {
    f == 0x48 || f == 0x66 || f == 0x41 || f == 0x42 || f == 0x43 || f == 0x44 || f == 0x45
        || f == 0x46 || f == 0x47 || f == 0x64 || f == 0x73 || f == 0x75
}

/// A CSI final byte that erases, inserts or deletes.
pub open spec fn is_edit_final(f: u8) -> bool {
    f == 0x4A || f == 0x4B || f == 0x58 || f == 0x4C || f == 0x4D
}

impl VgaConsole {
    fn csi_cursor(&mut self, f: u8)
        requires
            term_wf(TermView { state: ParseState::Normal, ..old(self)@ }),
            is_cursor_final(f),
        ensures
            csi_apply(old(self)@, f).1 == Seq::<u8>::empty(),
            final(self)@ == csi_apply(old(self)@, f).0,
            term_wf(TermView { state: ParseState::Normal, ..final(self)@ }),
    {
        reveal(csi_apply);
        let n = self.csi_param(0, 1) as usize;
        if f == 0x48 || f == 0x66 {
            let r = n.saturating_sub(1);
            let c = (self.csi_param(1, 1) as usize).saturating_sub(1);
            self.row = if r < ROWS - 1 { r } else { ROWS - 1 };
            self.col = if c < COLS - 1 { c } else { COLS - 1 };
        } else if f == 0x41 {
            self.row = self.row.saturating_sub(n);
        } else if f == 0x42 {
            let r = self.row + n;
            self.row = if r < ROWS - 1 { r } else { ROWS - 1 };
        } else if f == 0x43 {
            let c = self.col + n;
            self.col = if c < COLS - 1 { c } else { COLS - 1 };
        } else if f == 0x44 {
            self.col = self.col.saturating_sub(n);
        } else if f == 0x45 {
            let r = self.row + n;
            self.row = if r < ROWS - 1 { r } else { ROWS - 1 };
            self.col = 0;
        } else if f == 0x46 {
            self.row = self.row.saturating_sub(n);
            self.col = 0;
        } else if f == 0x47 {
            let c = n.saturating_sub(1);
            self.col = if c < COLS - 1 { c } else { COLS - 1 };
        } else if f == 0x64 {
            let r = n.saturating_sub(1);
            self.row = if r < ROWS - 1 { r } else { ROWS - 1 };
        } else if f == 0x73 {
            self.saved_col = self.col;
            self.saved_row = self.row;
        } else {
            self.col = self.saved_col;
            self.row = self.saved_row;
        }
    }

    fn csi_edit(&mut self, f: u8)
        requires
            term_wf(TermView { state: ParseState::Normal, ..old(self)@ }),
            is_edit_final(f),
        ensures
            csi_apply(old(self)@, f).1 == Seq::<u8>::empty(),
            final(self)@ == csi_apply(old(self)@, f).0,
            term_wf(TermView { state: ParseState::Normal, ..final(self)@ }),
    {
        reveal(csi_apply);
        let a = attr_of(self.attrs);
        let cur = self.row * COLS + self.col;
        let line = self.row * COLS;
        if f == 0x4A {
            let m = self.csi_param(0, 0);
            if m == 0 {
                fill_blank(&mut self.screen, cur, 2000, a);
            } else if m == 1 {
                fill_blank(&mut self.screen, 0, cur + 1, a);
            } else if m == 2 || m == 3 {
                fill_blank(&mut self.screen, 0, 2000, a);
            }
        } else if f == 0x4B {
            let m = self.csi_param(0, 0);
            if m == 0 {
                fill_blank(&mut self.screen, cur, line + COLS, a);
            } else if m == 1 {
                fill_blank(&mut self.screen, line, cur + 1, a);
            } else if m == 2 {
                fill_blank(&mut self.screen, line, line + COLS, a);
            }
        } else if f == 0x58 {
            let n = self.csi_param(0, 1) as usize;
            let end = if cur + n < line + COLS { cur + n } else { line + COLS };
            fill_blank(&mut self.screen, cur, end, a);
        } else if f == 0x4C {
            let n = self.csi_param(0, 1) as usize;
            insert_blank_rows(&mut self.screen, self.row, n, a);
        } else {
            let n = self.csi_param(0, 1) as usize;
            delete_screen_rows(&mut self.screen, self.row, n, a);
        }
    }

    fn csi_mode(&mut self, f: u8)
        requires
            term_wf(TermView { state: ParseState::Normal, ..old(self)@ }),
            f == 0x68 || f == 0x6C,
        ensures
            csi_apply(old(self)@, f).1 == Seq::<u8>::empty(),
            final(self)@ == csi_apply(old(self)@, f).0,
            term_wf(TermView { state: ParseState::Normal, ..final(self)@ }),
    {
        reveal(csi_apply);
        if !self.has_question {
            return;
        }
        let m = self.csi_param(0, 0);
        let alt_mode = m == 47 || m == 1047 || m == 1049;
        if f == 0x68 {
            if m == 25 {
                self.cursor_visible = true;
            } else if alt_mode && !self.alt_saved {
                self.alt_screen = self.screen.clone();
                assert(self.alt_screen@ =~= old(self)@.screen);
                self.alt_saved = true;
                if m == 1049 {
                    self.saved_col = self.col;
                    self.saved_row = self.row;
                }
                let a = attr_of(self.attrs);
                fill_blank(&mut self.screen, 0, 2000, a);
            }
        } else {
            if m == 25 {
                self.cursor_visible = false;
            } else if alt_mode && self.alt_saved {
                self.screen = self.alt_screen.clone();
                assert(self.screen@ =~= old(self)@.alt);
                self.alt_saved = false;
                if m == 1049 {
                    self.col = self.saved_col;
                    self.row = self.saved_row;
                }
            }
        }
    }

    fn csi_region(&mut self)
        requires
            term_wf(TermView { state: ParseState::Normal, ..old(self)@ }),
        ensures
            csi_apply(old(self)@, 0x72).1 == Seq::<u8>::empty(),
            final(self)@ == csi_apply(old(self)@, 0x72).0,
            term_wf(TermView { state: ParseState::Normal, ..final(self)@ }),
    {
        reveal(csi_apply);
        let t0 = (self.csi_param(0, 1) as usize).saturating_sub(1);
        let top = if t0 < ROWS - 1 { t0 } else { ROWS - 1 };
        let b0 = if self.param_count > 1 && self.params[1] != 0 {
            let p = self.params[1] as usize;
            if p < ROWS { p } else { ROWS }
        } else {
            ROWS
        };
        let b1 = b0.saturating_sub(1);
        let bottom = if b1 < top { top } else { b1 };
        if bottom > top {
            self.scroll_top = top;
            self.scroll_bottom = bottom;
            self.row = top;
            self.col = 0;
        }
    }

    fn status_report(&self) -> (r: Vec<u8>)
        requires
            term_wf(TermView { state: ParseState::Normal, ..self@ }),
        ensures
            r@ == csi_apply(self@, 0x6E).1,
            csi_apply(self@, 0x6E).0 == self@,
    {
        reveal(csi_apply);
        let m = self.csi_param(0, 0);
        let mut out: Vec<u8> = Vec::new();
        if m == 6 {
            let row = (self.row + 1) as u8;
            let col = (self.col + 1) as u8;
            out.push(0x1B);
            out.push(0x5B);
            out.push(0x30 + row / 10);
            out.push(0x30 + row % 10);
            out.push(0x3B);
            out.push(0x30 + col / 10);
            out.push(0x30 + col % 10);
            out.push(0x52);
        }
        if m == 5 {
            out.push(0x1B);
            out.push(0x5B);
            out.push(0x30);
            out.push(0x6E);
        }
        assert(out@ =~= csi_apply(self@, 0x6E).1);
        out
    }

    /// A complete CSI sequence with final byte `f`; returns what it sends
    /// back to the host.
    fn csi_dispatch(&mut self, f: u8) -> (r: Vec<u8>)
        requires
            term_wf(TermView { state: ParseState::Normal, ..old(self)@ }),
        ensures
            final(self)@ == csi_apply(old(self)@, f).0,
            r@ == csi_apply(old(self)@, f).1,
            term_wf(TermView { state: ParseState::Normal, ..final(self)@ }),
    {
        if is_cursor_final_exec(f) {
            self.csi_cursor(f);
            Vec::new()
        } else if f == 0x4A || f == 0x4B || f == 0x58 || f == 0x4C || f == 0x4D {
            self.csi_edit(f);
            Vec::new()
        } else if f == 0x6D {
            proof {
                reveal(csi_apply);
            }
            self.apply_sgr();
            Vec::new()
        } else if f == 0x68 || f == 0x6C {
            self.csi_mode(f);
            Vec::new()
        } else if f == 0x6E {
            self.status_report()
        } else if f == 0x72 {
            self.csi_region();
            Vec::new()
        } else {
            proof {
                reveal(csi_apply);
            }
            Vec::new()
        }
    }
}

fn is_cursor_final_exec(f: u8) -> (r: bool)
    ensures
        r == is_cursor_final(f),
{
    f == 0x48 || f == 0x66 || f == 0x41 || f == 0x42 || f == 0x43 || f == 0x44 || f == 0x45
        || f == 0x46 || f == 0x47 || f == 0x64 || f == 0x73 || f == 0x75
}

impl VgaConsole {
    fn escape_byte(&mut self, c: u8)
        requires
            term_wf(old(self)@),
        ensures
            final(self)@ == in_escape(old(self)@, c),
            term_wf(final(self)@),
    {
        if c == 0x5B {
            self.state = ParseState::Csi;
            self.param_count = 0;
            self.has_question = false;
            self.params = zeroed(CSI_MAX_PARAMS, 0u16);
            assert(self.params@ =~= Seq::new(16, |i: int| 0u16));
        } else if c == 0x63 {
            self.clear_screen();
            self.attrs = Attrs { fg: 7, bg: 0, bold: false, reverse: false, blink: false, faint: false, concealed: false };
            self.scroll_top = 0;
            self.scroll_bottom = ROWS - 1;
            self.cursor_visible = true;
            self.state = ParseState::Normal;
            self.cached_attr = attr_of(self.attrs);
        } else if c == 0x37 {
            self.saved_col = self.col;
            self.saved_row = self.row;
            self.state = ParseState::Normal;
        } else if c == 0x38 {
            self.col = self.saved_col;
            self.row = self.saved_row;
            self.state = ParseState::Normal;
        } else if c == 0x44 {
            self.state = ParseState::Normal;
            self.feed_line();
        } else if c == 0x4D {
            self.state = ParseState::Normal;
            if self.row == 0 {
                let a = attr_of(self.attrs);
                scroll_screen_down(&mut self.screen, a);
            } else {
                self.row = self.row - 1;
            }
        } else if c == 0x5D || c == 0x5F || c == 0x50 {
            self.state = ParseState::Osc;
        } else {
            self.state = ParseState::Normal;
        }
    }

    fn csi_final(&mut self, c: u8) -> (r: Vec<u8>)
        requires
            term_wf(old(self)@),
            old(self)@.state == ParseState::Csi,
        ensures
            ({
                let t = old(self)@;
                let n = if t.count == 0 && t.params[0] == 0 { 0 } else { t.count + 1 };
                let (t1, out) = csi_apply(TermView { count: n, ..t }, c);
                final(self)@ == (TermView { state: ParseState::Normal, ..t1 }) && r@ == out
            }),
            term_wf(final(self)@),
    {
        if !(self.param_count == 0 && self.params[0] == 0) {
            self.param_count = self.param_count + 1;
        }
        let out = self.csi_dispatch(c);
        self.state = ParseState::Normal;
        out
    }

    fn csi_byte(&mut self, c: u8) -> (r: Vec<u8>)
        requires
            term_wf(old(self)@),
            old(self)@.state == ParseState::Csi,
        ensures
            (final(self)@, r@) == in_csi(old(self)@, c),
            term_wf(final(self)@),
    {
        if 0x30 <= c && c <= 0x39 {
            if self.param_count < CSI_MAX_PARAMS {
                let p = self.params[self.param_count];
                let v = ((p as u32 * 10 + (c - 0x30) as u32) % 65536) as u16;
                self.params.set(self.param_count, v);
            }
            Vec::new()
        } else if c == 0x3B {
            if self.param_count < CSI_MAX_PARAMS - 1 {
                self.param_count = self.param_count + 1;
            }
            Vec::new()
        } else if c == 0x3F {
            self.has_question = true;
            Vec::new()
        } else if 0x20 <= c && c <= 0x2F {
            Vec::new()
        } else if 0x40 <= c && c <= 0x7E {
            self.csi_final(c)
        } else {
            self.state = ParseState::Normal;
            Vec::new()
        }
    }

    /// Writes one byte: control characters, escape sequences, or a printable
    /// character at the cursor.  Returns the bytes the console answers with
    /// (cursor position and status reports), to be sent back to the host.
    pub fn putchar(&mut self, c: u8) -> (r: Vec<u8>)
        requires
            term_wf(old(self)@),
        ensures
            (final(self)@, r@) == put_byte(old(self)@, c),
            term_wf(final(self)@),
    {
        if !self.initialized {
            return Vec::new();
        }
        match self.state {
            ParseState::Normal => {
                if c == 0x1B {
                    self.state = ParseState::Escape;
                } else if c == 0x0A {
                    self.col = 0;
                    self.feed_line();
                } else if c == 0x0D {
                    self.col = 0;
                } else if c == 0x09 {
                    self.tab();
                } else if c == 0x08 {
                    if self.col > 0 {
                        self.col = self.col - 1;
                    }
                } else if c >= 0x20 {
                    self.print(c);
                }
                Vec::new()
            },
            ParseState::Escape => {
                self.escape_byte(c);
                Vec::new()
            },
            ParseState::Csi => self.csi_byte(c),
            ParseState::Osc => {
                if c == 0x07 {
                    self.state = ParseState::Normal;
                } else if c == 0x1B {
                    self.state = ParseState::Escape;
                }
                Vec::new()
            },
        }
    }

    /// Writes every byte of `s` in turn; returns all the answers.
    pub fn write_bytes(&mut self, s: &[u8]) -> (r: Vec<u8>)
        requires
            term_wf(old(self)@),
        ensures
            term_wf(final(self)@),
            (final(self)@, r@) == put_all(old(self)@, s@),
    {
        let mut out: Vec<u8> = Vec::new();
        let mut i: usize = 0;
        proof {
            assert(s@.subrange(0, s@.len() as int) =~= s@);
            assert(out@ + put_all(self@, s@).1 =~= put_all(self@, s@).1);
        }
        while i < s.len()
            invariant
                i <= s.len(),
                term_wf(self@),
                put_all(old(self)@, s@) == ({
                    let rest = put_all(self@, s@.subrange(i as int, s@.len() as int));
                    (rest.0, out@ + rest.1)
                }),
            decreases s.len() - i,
        {
            let ghost before = self@;
            let mut r = self.putchar(s[i]);
            proof {
                assert(s@.subrange(i as int, s@.len() as int).drop_first()
                    =~= s@.subrange(i + 1, s@.len() as int));
                assert(out@ + r@ + put_all(self@, s@.subrange(i + 1, s@.len() as int)).1
                    =~= out@ + (r@ + put_all(self@, s@.subrange(i + 1, s@.len() as int)).1));
            }
            out.append(&mut r);
            i = i + 1;
        }
        proof {
            assert(s@.subrange(i as int, s@.len() as int) =~= Seq::<u8>::empty());
            assert(out@ + Seq::<u8>::empty() =~= out@);
        }
        out
    }
}

/// The bytes of `s` written in turn: the final state and all the answers.
pub open spec fn put_all(t: TermView, s: Seq<u8>) -> (TermView, Seq<u8>)
    decreases s.len(),
{
    if s.len() == 0 {
        (t, Seq::empty())
    } else {
        let (t1, out) = put_byte(t, s[0]);
        let rest = put_all(t1, s.drop_first());
        (rest.0, out + rest.1)
    }
}

/// The six intensity levels of the xterm color cube.
pub open spec fn xterm_cube_levels() -> Seq<u8> {
    seq![0u8, 95u8, 135u8, 175u8, 215u8, 255u8]
}

/// Each level of the color cube is the xterm one.
proof fn lemma_cube_level(v: int)
    requires
        0 <= v < 6,
    ensures
        cube_level(v) == xterm_cube_levels()[v],
{
    assert(v == 0 || v == 1 || v == 2 || v == 3 || v == 4 || v == 5);
}

/// Colors 16 to 231 form the xterm 6×6×6 cube: writing `idx - 16` in base
/// six as the digits red, green, blue, each component is the xterm level
/// 0, 95, 135, 175, 215 or 255 of its digit.
pub proof fn law_color_cube(idx: u8)
    requires
        16 <= idx < 232,
    ensures
        color256_rgb(idx) == (
            xterm_cube_levels()[(idx - 16) / 36],
            xterm_cube_levels()[((idx - 16) / 6) % 6],
            xterm_cube_levels()[(idx - 16) % 6],
        ),
{
    let i = idx - 16;
    assert(0 <= i / 36 < 6);
    lemma_cube_level(i / 36);
    lemma_cube_level((i / 6) % 6);
    lemma_cube_level(i % 6);
}

/// A component of ANSI color `i` (0..15) whose bit is `on`: 170 or 0 for
/// the normal colors, 255 or 85 for the bright ones (8..15).
pub open spec fn ansi_level(i: int, on: bool) -> u8 {
    if i >= 8 {
        if on { 255u8 } else { 85u8 }
    } else {
        if on { 170u8 } else { 0u8 }
    }
}

/// Colors 0 to 15 are the ANSI colors in VGA intensities: bit 0 of the
/// index is red, bit 1 green, bit 2 blue, bit 3 bright; color 3 is the
/// VGA brown, whose green is halved.
pub proof fn law_ansi_colors(idx: u8)
    requires
        idx < 16,
    ensures
        idx == 3 ==> color256_rgb(idx) == (170u8, 85u8, 0u8),
        idx != 3 ==> color256_rgb(idx) == (
            ansi_level(idx as int, idx % 2 == 1),
            ansi_level(idx as int, (idx / 2) % 2 == 1),
            ansi_level(idx as int, (idx / 4) % 2 == 1),
        ),
{
    assert(idx == 0 || idx == 1 || idx == 2 || idx == 3 || idx == 4 || idx == 5 || idx == 6 || idx == 7 || idx == 8
        || idx == 9 || idx == 10 || idx == 11 || idx == 12 || idx == 13 || idx == 14 || idx == 15);
}

/// Colors 232 to 255 are a gray ramp: equal components, starting at 8 and
/// rising by 10 from one color to the next.
pub proof fn law_gray_ramp(idx: u8)
    requires
        232 <= idx,
    ensures
        color256_rgb(idx).0 == color256_rgb(idx).1 == color256_rgb(idx).2,
        color256_rgb(232).0 == 8,
        idx < 255 ==> color256_rgb((idx + 1) as u8).0 == color256_rgb(idx).0 + 10,
{
}

/// The SGR color codes: 30+k and 40+k select ANSI color k (0 black,
/// 1 red, 2 green, 3 yellow, 4 blue, 5 magenta, 6 cyan, 7 white) as
/// foreground and background, 90+k and 100+k its bright version k+8, each
/// leaving the rest of the rendition as it was; 39 and 49 bring back the
/// default foreground and background, and 0 the whole default rendition.
pub proof fn law_sgr_colors(a: Attrs, k: int)
    requires
        0 <= k < 8,
    ensures
        sgr_one(a, seq![(30 + k) as u16], 1, 0) == (Attrs { fg: k as u8, ..a }, 0int),
        sgr_one(a, seq![(40 + k) as u16], 1, 0) == (Attrs { bg: k as u8, ..a }, 0int),
        sgr_one(a, seq![(90 + k) as u16], 1, 0) == (Attrs { fg: (k + 8) as u8, ..a }, 0int),
        sgr_one(a, seq![(100 + k) as u16], 1, 0) == (Attrs { bg: (k + 8) as u8, ..a }, 0int),
        sgr_one(a, seq![39u16], 1, 0).0.fg == default_attrs().fg,
        sgr_one(a, seq![49u16], 1, 0).0.bg == default_attrs().bg,
        sgr_one(a, seq![0u16], 1, 0).0 == default_attrs(),
{
}

} // verus!
