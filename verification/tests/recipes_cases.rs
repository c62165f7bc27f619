//! The icon recipes: game paths, the role colour table, the sprite-sheet
//! exclusion, grid geometry, masks and frames.

use texkit::pixel::{Pixel, PixelBuffer};
use texkit::recipes::{
    font_mask, font_sheet_eligible, icon_path, job_color_role, job_icon_ids, menu_background,
    menu_grey, menu_mask, sheet_cell_origin, silver_frame, shop_inset, uld_text_color,
};
use texkit::sheets::FontSheets;

fn px(r: u8, g: u8, b: u8, a: u8) -> Pixel {
    Pixel { r, g, b, a }
}

fn solid(width: u32, height: u32, p: Pixel) -> PixelBuffer {
    PixelBuffer { width, height, pixels: vec![p; (width * height) as usize] }
}

#[test]
fn icon_paths_are_zero_padded() {
    assert_eq!(icon_path(62001), b"ui/icon/062000/062001_hr1.tex".to_vec());
    assert_eq!(icon_path(5), b"ui/icon/000000/000005_hr1.tex".to_vec());
    assert_eq!(icon_path(61901), b"ui/icon/061000/061901_hr1.tex".to_vec());
    assert_eq!(icon_path(1234567), b"ui/icon/1234000/1234567_hr1.tex".to_vec());
}

#[test]
fn job_ids_share_the_index() {
    let (content, party, macro_id, plate) = job_icon_ids(7);
    assert_eq!(content, 62007);
    assert_eq!(party, 62107);
    assert_eq!(macro_id, 62807);
    assert_eq!(plate, 62232);
}

#[test]
fn role_table_covers_the_job_rows() {
    assert_eq!(job_color_role(1), Some(b"Pld Color".to_vec()));
    assert_eq!(job_color_role(19), Some(b"Pld Color".to_vec()));
    assert_eq!(job_color_role(26), Some(b"Smn Color".to_vec()));
    assert_eq!(job_color_role(42), Some(b"Pct Color".to_vec()));
    assert_eq!(job_color_role(43), Some(b"No Job Color".to_vec()));
    assert_eq!(job_color_role(45), Some(b"No Job Color".to_vec()));
    assert_eq!(job_color_role(0), None);
    assert_eq!(job_color_role(46), None);
}

#[test]
fn free_slot_is_excluded_from_font_sheets() {
    // Index 45 (the free slot) carries "No Job Color": it must not appear in
    // any sprite-sheet accumulator.
    let role = job_color_role(45).unwrap();
    assert!(!font_sheet_eligible(&role));
    let mut sheets = FontSheets::new();
    let icon = solid(36, 36, px(255, 255, 255, 255));
    let (x, y) = sheet_cell_origin(45);
    sheets.add_job(&role, x, y, &icon, &icon, &icon, &icon, &icon, &icon);
    assert_eq!(sheets.glow.len(), 0);
    assert_eq!(sheets.border.len(), 0);
    assert_eq!(sheets.square.len(), 0);
    assert_eq!(sheets.rounded.len(), 0);
}

#[test]
fn eligible_roles_accumulate_per_color_bucket() {
    let mut sheets = FontSheets::new();
    let icon = solid(36, 36, px(200, 100, 50, 255));
    let role1 = job_color_role(1).unwrap();
    let role19 = job_color_role(19).unwrap(); // also "Pld Color"
    let role2 = job_color_role(2).unwrap();
    let (x1, y1) = sheet_cell_origin(1);
    let (x19, y19) = sheet_cell_origin(19);
    let (x2, y2) = sheet_cell_origin(2);
    sheets.add_job(&role1, x1, y1, &icon, &icon, &icon, &icon, &icon, &icon);
    sheets.add_job(&role19, x19, y19, &icon, &icon, &icon, &icon, &icon, &icon);
    sheets.add_job(&role2, x2, y2, &icon, &icon, &icon, &icon, &icon, &icon);
    assert_eq!(sheets.glow.len(), 2); // Pld and Mnk buckets
    assert_eq!(sheets.glow[0].color, b"Pld Color".to_vec());
    assert_eq!(sheets.glow[1].color, b"Mnk Color".to_vec());
    assert_eq!(sheets.glow[0].layers.len(), 2);
    assert_eq!(sheets.border[0].layers.len(), 1);
    assert_eq!(sheets.square[0].layers.len(), 3);
    // The opaque icon was composited at both grid cells of the Pld bucket.
    let base = &sheets.glow[0].layers[1].img;
    assert_eq!(base.get(x1 + 5, y1 + 5), px(200, 100, 50, 255));
    assert_eq!(base.get(x19 + 5, y19 + 5), px(200, 100, 50, 255));
    assert_eq!(base.get(0, 0), px(0, 0, 0, 0));
}

#[test]
fn grid_cells_have_forty_pixel_pitch() {
    assert_eq!(sheet_cell_origin(1), (2, 702));
    assert_eq!(sheet_cell_origin(12), (442, 702));
    assert_eq!(sheet_cell_origin(13), (2, 742));
    assert_eq!(sheet_cell_origin(45), (322, 822));
}

#[test]
fn font_mask_blacks_out_both_icon_bands() {
    let m = font_mask();
    assert_eq!(m.get(0, 0), px(255, 255, 255, 255));
    assert_eq!(m.get(100, 179), px(255, 255, 255, 255));
    assert_eq!(m.get(100, 180), px(0, 0, 0, 255));
    assert_eq!(m.get(100, 259), px(0, 0, 0, 255));
    assert_eq!(m.get(100, 260), px(255, 255, 255, 255));
    assert_eq!(m.get(100, 700), px(0, 0, 0, 255));
    assert_eq!(m.get(100, 859), px(0, 0, 0, 255));
    assert_eq!(m.get(100, 860), px(255, 255, 255, 255));
}

#[test]
fn menu_background_cuts_the_corners() {
    let bg = menu_background();
    assert_eq!(bg.get(0, 0), px(0, 0, 0, 0));
    assert_eq!(bg.get(5, 0), px(0, 0, 0, 0));
    assert_eq!(bg.get(6, 0), px(255, 255, 255, 255));
    assert_eq!(bg.get(40, 40), px(255, 255, 255, 255));
    assert_eq!(bg.get(79, 79), px(0, 0, 0, 0));
    assert_eq!(bg.get(79, 74), px(0, 0, 0, 0));
    assert_eq!(bg.get(79, 73), px(255, 255, 255, 255));
}

#[test]
fn menu_mask_thresholds_on_brightness() {
    let mut b = PixelBuffer {
        width: 4,
        height: 1,
        pixels: vec![
            px(150, 80, 0, 10),
            px(100, 80, 0, 10),
            px(150, 70, 0, 10),
            px(150, 80, 0, 0),
        ],
    };
    menu_mask(&mut b);
    assert_eq!(b.pixels[0], px(255, 255, 255, 255));
    assert_eq!(b.pixels[1], px(100, 80, 0, 0));
    assert_eq!(b.pixels[2], px(150, 70, 0, 0));
    assert_eq!(b.pixels[3], px(150, 80, 0, 0));
}

#[test]
fn menu_grey_keeps_alpha() {
    let mut b = PixelBuffer { width: 1, height: 1, pixels: vec![px(100, 100, 100, 50)] };
    menu_grey(&mut b);
    assert_eq!(b.pixels[0], px(101, 101, 101, 50));
}

#[test]
fn silver_frame_zeroes_band_and_notches() {
    let mut b = solid(64, 64, px(9, 9, 9, 255));
    silver_frame(&mut b);
    assert_eq!(b.get(0, 0), px(0, 0, 0, 0)); // edge band
    assert_eq!(b.get(30, 5), px(0, 0, 0, 0)); // top band
    assert_eq!(b.get(58, 30), px(0, 0, 0, 0)); // right band
    assert_eq!(b.get(57, 30), px(9, 9, 9, 255)); // just inside the band
    assert_eq!(b.get(6, 6), px(0, 0, 0, 0)); // corner notch
    assert_eq!(b.get(7, 8), px(0, 0, 0, 0)); // notch: (1)+(2) <= 3
    assert_eq!(b.get(7, 7), px(0, 0, 0, 0)); // notch: (1)+(1) <= 3
    assert_eq!(b.get(8, 8), px(9, 9, 9, 255)); // past the notch
    assert_eq!(b.get(57, 57), px(0, 0, 0, 0)); // opposite notch corner
    assert_eq!(b.get(55, 55), px(9, 9, 9, 255)); // past the opposite notch
    assert_eq!(b.get(32, 32), px(9, 9, 9, 255)); // centre untouched
}

#[test]
fn font_sheet_descriptor_stacks_canvases_over_the_game_base() {
    let mut sheets = FontSheets::new();
    let icon = solid(36, 36, px(1, 2, 3, 255));
    let role = job_color_role(1).unwrap();
    let (x, y) = sheet_cell_origin(1);
    sheets.add_job(&role, x, y, &icon, &icon, &icon, &icon, &icon, &icon);
    let t = texkit::sheets::font_sheet_comp(
        &sheets.glow,
        &b"common/font/fonticon_ps5.tex/Job Icons Party List/Glow".to_vec(),
        &b"common/font/fonticon_ps5.tex".to_vec(),
    );
    // Two canvases plus the shared game-native base, reversed: the base first.
    assert_eq!(t.layers.len(), 3);
    assert_eq!(t.layers[0].name, b"Game".to_vec());
    assert_eq!(t.layers[0].modifiers.len(), 1);
    assert_eq!(t.layers[1].name, b"Layer1".to_vec());
    assert!(t.layers[1].modifiers.is_empty()); // the untinted base canvas
    assert_eq!(t.layers[2].name, b"Layer0".to_vec());
    assert_eq!(t.layers[2].modifiers.len(), 1); // the tinted glow canvas
}

#[test]
fn sheet_small_band_is_refreshed() {
    let mut img = solid(512, 1024, px(0, 0, 0, 0));
    // Put an opaque block into the large band; the small variant appears at
    // half scale from row 180.
    for yy in 700..740u32 {
        for xx in 0..40u32 {
            img.set(xx, yy, px(250, 250, 250, 255));
        }
    }
    texkit::recipes::sheet_make_small(&mut img);
    assert_eq!(img.width, 512);
    assert_eq!(img.height, 1024);
    assert_eq!(img.get(5, 185), px(250, 250, 250, 255));
    assert_eq!(img.get(400, 185), px(0, 0, 0, 0));
}

#[test]
fn shop_inset_keeps_the_window() {
    let mut src = solid(40, 40, px(5, 6, 7, 255));
    // Mark one pixel inside the copied window and one outside it.
    let idx = (10 * 40 + 10) as usize;
    src.pixels[idx] = px(77, 88, 99, 255);
    let r = shop_inset(&src);
    assert_eq!(r.width, 40);
    assert_eq!(r.height, 40);
    assert_eq!(r.get(10, 10), px(77, 88, 99, 255));
    assert_eq!(r.get(0, 0), px(0, 0, 0, 0)); // outside the inset window
    assert_eq!(r.get(36, 36), px(0, 0, 0, 0));
}

#[test]
fn uld_text_colors_collapse_onto_theme() {
    for c in 1..=7u32 {
        assert_eq!(uld_text_color(c), 7001);
    }
    assert_eq!(uld_text_color(50), 7001);
    assert_eq!(uld_text_color(51), 7001);
    assert_eq!(uld_text_color(55), 7001);
    assert_eq!(uld_text_color(0), 0);
    assert_eq!(uld_text_color(8), 8);
    assert_eq!(uld_text_color(7001), 7001);
}
