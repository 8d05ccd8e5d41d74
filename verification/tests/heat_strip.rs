use audioviz::heat::{HeatStripBuffer, HEIGHT, WIDTH};

fn row(strip: &HeatStripBuffer, r: usize) -> &[u32] {
    &strip.cells()[r * WIDTH..(r + 1) * WIDTH]
}

#[test]
fn strip_sizes_are_fixed() {
    assert_eq!(WIDTH, 100);
    assert_eq!(HEIGHT, 1024);
}

#[test]
fn new_strip_is_black() {
    let strip = HeatStripBuffer::new();
    assert_eq!(strip.cells().len(), 100 * 1024);
    assert!(strip.cells().iter().all(|&c| c == 0));
}

#[test]
fn level_becomes_the_red_channel() {
    let mut strip = HeatStripBuffer::new();
    strip.write_heat_strip(&vec![0x7F]);
    assert!(row(&strip, 0).iter().all(|&c| c == 0x007F_0000));
    assert!(strip.cells()[WIDTH..].iter().all(|&c| c == 0));
}

#[test]
fn bands_land_on_the_rotated_rows() {
    let n = 994;
    let levels: Vec<u8> = (0..n).map(|i| (i % 251) as u8 + 1).collect();
    let mut strip = HeatStripBuffer::new();
    strip.write_heat_strip(&levels);
    for i in 0..n {
        let r = (i + 768) % n;
        let colour = (levels[i] as u32) << 16;
        assert!(row(&strip, r).iter().all(|&c| c == colour));
    }
    for r in n..HEIGHT {
        assert!(row(&strip, r).iter().all(|&c| c == 0));
    }
}

#[test]
fn every_row_is_written_when_levels_fill_the_strip() {
    let levels: Vec<u8> = (0..HEIGHT).map(|i| (i % 255) as u8 + 1).collect();
    let mut strip = HeatStripBuffer::new();
    strip.write_heat_strip(&levels);
    for r in 0..HEIGHT {
        let i = (r + HEIGHT - 768) % HEIGHT;
        let colour = (levels[i] as u32) << 16;
        assert!(row(&strip, r).iter().all(|&c| c == colour));
    }
}

#[test]
fn rows_beyond_the_levels_keep_their_trail() {
    let mut strip = HeatStripBuffer::new();
    strip.write_heat_strip(&vec![200; 10]);
    strip.write_heat_strip(&vec![50, 60, 70, 80]);
    // 768 is a multiple of 4, so level i lands on row i.
    assert!(row(&strip, 0).iter().all(|&c| c == 50 << 16));
    assert!(row(&strip, 1).iter().all(|&c| c == 60 << 16));
    assert!(row(&strip, 2).iter().all(|&c| c == 70 << 16));
    assert!(row(&strip, 3).iter().all(|&c| c == 80 << 16));
    for r in 4..10 {
        assert!(row(&strip, r).iter().all(|&c| c == 200 << 16));
    }
    for r in 10..HEIGHT {
        assert!(row(&strip, r).iter().all(|&c| c == 0));
    }
}

#[test]
fn no_levels_change_nothing() {
    let mut strip = HeatStripBuffer::new();
    strip.write_heat_strip(&vec![9; 20]);
    let before = strip.cells().clone();
    strip.write_heat_strip(&Vec::new());
    assert_eq!(strip.cells(), &before);
}

#[test]
fn silent_levels_give_black_bands() {
    let mut strip = HeatStripBuffer::new();
    strip.write_heat_strip(&vec![255; 994]);
    strip.write_heat_strip(&vec![0; 994]);
    for r in 0..994 {
        assert!(row(&strip, r).iter().all(|&c| c == 0));
    }
}

#[test]
fn only_the_red_channel_is_used() {
    let mut strip = HeatStripBuffer::new();
    strip.write_heat_strip(&vec![255; 5]);
    for r in 0..5 {
        assert!(row(&strip, r).iter().all(|&c| c == 0x00FF_0000));
    }
}
