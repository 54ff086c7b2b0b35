use kcore::cmos::{get_datetime, CmosRegisters, DateTime};
use kcore::vga::{Color, ColorCode, VgaChar, Writer, BUFFER_CELLS};
use kcore::QemuExitCode;

#[test]
fn datetime_from_bcd_24h() {
    let regs = CmosRegisters {
        status_b: 0b0000_0010,
        century: 0x20,
        year: 0x24,
        month: 0x12,
        day: 0x31,
        hours: 0x23,
        minutes: 0x59,
        seconds: 0x58,
    };
    assert_eq!(
        get_datetime(&regs),
        DateTime { year: 2024, month: 12, day: 31, hours: 23, minutes: 59, seconds: 58 }
    );
}

#[test]
fn datetime_binary_12h() {
    let regs = CmosRegisters {
        status_b: 0b0000_0100,
        century: 20,
        year: 5,
        month: 7,
        day: 14,
        hours: 0x80 | 0x08,
        minutes: 30,
        seconds: 0,
    };
    let dt = get_datetime(&regs);
    assert_eq!(dt.year, 2005);
    assert_eq!(dt.hours, 20);
    assert_eq!(dt.minutes, 30);
}

#[test]
fn color_code_packs_colors() {
    assert_eq!(ColorCode::new(Color::Green, Color::Black), ColorCode(0x02));
    assert_eq!(ColorCode::new(Color::White, Color::Blue), ColorCode(0x1f));
}

#[test]
fn writer_writes_bottom_row_and_scrolls() {
    let color = ColorCode::new(Color::Green, Color::Black);
    let mut w = Writer::new(color);
    w.write_string("hi\u{e9}");
    // The last row starts at cell 24 * 80.
    let base = BUFFER_CELLS - 80;
    let screen = w.screen_cells();
    assert_eq!(screen[base], VgaChar { ascii: b'h', color });
    assert_eq!(screen[base + 1], VgaChar { ascii: b'i', color });
    // The two bytes of a non-ASCII character each show as a square.
    assert_eq!(screen[base + 2].ascii, 0xfe);
    assert_eq!(screen[base + 3].ascii, 0xfe);
    w.write_string("\n");
    let screen = w.screen_cells();
    assert_eq!(screen[base - 80].ascii, b'h');
    assert_eq!(screen[base].ascii, b' ');
}

#[test]
fn qemu_exit_codes() {
    assert_eq!(QemuExitCode::Success.code(), 0x10);
    assert_eq!(QemuExitCode::Failure.code(), 0x11);
}
