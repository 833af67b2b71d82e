use rust_learning_path::ascii_art::{
    braille_glyph, build_ramp, chars_of, ramp_for, render_ascii, render_blocks, render_braille,
    render_color, reverse_ramp,
};

fn s(v: &[char]) -> String {
    v.iter().collect()
}

#[test]
fn ramps_are_chosen_by_lower_case_name() {
    assert_eq!(s(&build_ramp("simple")), " .:-=+*#%@");
    assert_eq!(s(&build_ramp("SIMPLE")), " .:-=+*#%@");
    assert_eq!(
        s(&build_ramp("Dense")),
        "$@B%8&WM#*oahkbdpqwmZO0QLCJUYXzcvunxrjft/\\|()1{}[]?-_+~<>i!lI;:,\"^`'. "
    );
    assert_eq!(s(&build_ramp("classic")), "@%#*+=-:. ");
    assert_eq!(s(&build_ramp("anything")), "@%#*+=-:. ");
    assert_eq!(s(&ramp_for("SIMPLE")), "@%#*+=-:. ");
}

#[test]
fn reversed_ramp_reads_backwards() {
    assert_eq!(s(&reverse_ramp(&build_ramp("classic"))), " .:-=+*#%@");
    assert_eq!(s(&reverse_ramp(&Vec::new())), "");
    assert_eq!(s(&chars_of("héllo")), "héllo");
}

#[test]
fn ascii_grid_maps_levels_to_ramp_characters() {
    let ramp = build_ramp("simple");
    let levels = vec![0, 9, 4, 1, 2, 3];
    assert_eq!(render_ascii(&levels, &ramp, 3, 2), " @=\n.:-\n");
    assert_eq!(render_ascii(&Vec::new(), &ramp, 0, 2), "\n\n");
    assert_eq!(render_ascii(&Vec::new(), &ramp, 5, 0), "");
}

#[test]
fn half_blocks_pair_rows_and_repeat_an_odd_last_row() {
    let lit = vec![true, true, false, false, true, false, true, false, true, false, false, true];
    // 4 columns, 3 rows: rows (0,1) then row 2 with itself
    assert_eq!(render_blocks(&lit, 4, 3), "█▀▄ \n█  █\n");
}

#[test]
fn half_blocks_small_cases() {
    assert_eq!(render_blocks(&vec![true, false, false, true], 2, 2), "▀▄\n");
    assert_eq!(render_blocks(&vec![true, false], 2, 1), "█ \n");
    assert_eq!(render_blocks(&Vec::new(), 3, 0), "");
}

#[test]
fn braille_dots_follow_the_dot_numbering() {
    assert_eq!(braille_glyph(0), '\u{2800}');
    assert_eq!(braille_glyph(255), '\u{28ff}');
    assert_eq!(braille_glyph(0b0100_0001), '\u{2841}');
    let all_set = vec![true; 8];
    let none_set = vec![false; 8];
    assert_eq!(render_braille(&none_set, 1, 1), "\u{28ff}\n");
    assert_eq!(render_braille(&all_set, 1, 1), "\u{2800}\n");
    // only the top-left pixel dark: dot 1; only the bottom-right: dot 8
    let mut set = vec![true; 8];
    set[0] = false;
    assert_eq!(render_braille(&set, 1, 1), "\u{2801}\n");
    let mut set = vec![true; 8];
    set[7] = false;
    assert_eq!(render_braille(&set, 1, 1), "\u{2880}\n");
    // bottom-left pixel: dot 7
    let mut set = vec![true; 8];
    set[6] = false;
    assert_eq!(render_braille(&set, 1, 1), "\u{2840}\n");
    assert_eq!(render_braille(&Vec::new(), 0, 2), "\n\n");
}

#[test]
fn braille_cells_cover_two_by_four_pixels() {
    // 2 cells wide, 1 high: 4 x 4 pixels; light the right cell's top-right pixel dark
    let mut set = vec![true; 16];
    set[3] = false;
    assert_eq!(render_braille(&set, 2, 1), "\u{2800}\u{2808}\n");
}

#[test]
fn colour_cells_carry_both_pixels() {
    let pix = vec![(1, 22, 255), (0, 0, 0), (9, 10, 100), (7, 8, 9)];
    let out = render_color(&pix, 2, 2);
    assert_eq!(
        out,
        "\x1b[38;2;1;22;255m\x1b[48;2;9;10;100m▀\x1b[38;2;0;0;0m\x1b[48;2;7;8;9m▀\x1b[0m\n"
    );
    let one = vec![(5, 50, 250)];
    assert_eq!(render_color(&one, 1, 1), "\x1b[38;2;5;50;250m\x1b[48;2;5;50;250m▀\x1b[0m\n");
}

#[test]
fn law_flipped_pixels_flip_braille_text() {
    // 2 cells wide, 2 high: 4 x 8 pixels
    let set: Vec<bool> = (0..32).map(|i| (i * 7) % 5 < 2).collect();
    let flipped: Vec<bool> = set.iter().map(|b| !b).collect();
    let plain = render_braille(&set, 2, 2);
    let other = render_braille(&flipped, 2, 2);
    let expected: String = plain
        .chars()
        .map(|c| if c == '\n' { c } else { char::from_u32(0x2800 + 255 - (c as u32 - 0x2800)).unwrap() })
        .collect();
    assert_eq!(other, expected);
    assert_eq!(other.chars().count(), 2 * (2 + 1));
}

#[test]
fn law_grid_text_layout() {
    let levels: Vec<usize> = (0..12).map(|i| i % 10).collect();
    let ramp = build_ramp("simple");
    let text: Vec<char> = render_ascii(&levels, &ramp, 4, 3).chars().collect();
    assert_eq!(text.len(), 3 * (4 + 1));
    for y in 0..3 {
        for x in 0..4 {
            assert_eq!(text[y * 5 + x], ramp[levels[y * 4 + x]]);
        }
        assert_eq!(text[y * 5 + 4], '\n');
    }
}

#[test]
fn law_reversed_ramp_mirrors_levels() {
    let ramp = build_ramp("simple");
    let rev = reverse_ramp(&ramp);
    let levels = vec![0, 3, 9];
    let plain: Vec<char> = render_ascii(&levels, &ramp, 3, 1).chars().collect();
    let mirrored_levels: Vec<usize> = levels.iter().map(|l| 9 - l).collect();
    assert_eq!(render_ascii(&levels, &rev, 3, 1), render_ascii(&mirrored_levels, &ramp, 3, 1));
    assert_eq!(plain.len(), 4);
}

#[test]
fn law_negated_mask_swaps_block_text() {
    let lit = vec![true, true, false, false, true, false, true, false, true, false, false, true];
    let dark: Vec<bool> = lit.iter().map(|b| !b).collect();
    let swapped: String = render_blocks(&lit, 4, 3)
        .chars()
        .map(|c| match c {
            '█' => ' ',
            ' ' => '█',
            '▀' => '▄',
            '▄' => '▀',
            other => other,
        })
        .collect();
    assert_eq!(render_blocks(&dark, 4, 3), swapped);
}

#[test]
fn law_ramps_have_ten_or_more_and_ascii_names_ignore_case() {
    for name in ["simple", "dense", "classic", "", "x"] {
        assert!(build_ramp(name).len() >= 10);
        assert_eq!(build_ramp(&name.to_uppercase()), build_ramp(name));
    }
}
