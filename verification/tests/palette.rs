use quake_files::palette::Color;
use quake_files::raster::{Raster, Rgba};
use quake_files::{Palette, QError};

fn px(r: u8, g: u8, b: u8, a: u8) -> Rgba {
    Rgba { r, g, b, a }
}

#[test]
fn read_and_write() {
    let mut colors = vec![];

    for i in 0..256 {
        colors.push(i as u8);
        colors.push(i as u8);
        colors.push((255 - i) as u8);
    }

    let palette = Palette::read(&colors).unwrap();

    for (i, color) in palette.map().iter().enumerate() {
        let i = i as u8;
        assert_eq!(color.r, i);
        assert_eq!(color.g, i);
        assert_eq!(color.b, 255 - i);
    }

    let mut out = vec![];
    palette.write(&mut out);
    for (_i, (x, y)) in colors.chunks(3).zip(out.chunks(3)).enumerate() {
        assert_eq!(x, y);
    }
    assert_eq!(out.len(), 768);
}

#[test]
fn short_palette_is_filled_with_black() {
    let palette = Palette::read(&[1, 2, 3, 4, 5, 6]).unwrap();
    assert_eq!(palette.map().len(), 256);
    assert_eq!(palette.get(0), Color { r: 1, g: 2, b: 3 });
    assert_eq!(palette.get(1), Color { r: 4, g: 5, b: 6 });
    assert_eq!(palette.get(2), Color { r: 0, g: 0, b: 0 });
    assert_eq!(palette.get(255), Color { r: 0, g: 0, b: 0 });
    let mut out = vec![0xee];
    palette.write(&mut out);
    assert_eq!(out.len(), 769);
    assert_eq!(&out[..8], &[0xee, 1, 2, 3, 4, 5, 6, 0][..]);
}

#[test]
fn palette_size_is_checked() {
    assert_eq!(Palette::read(&[]).err(), Some(QError::InvalidPaletteSize));
    assert_eq!(Palette::read(&[1, 2]).err(), Some(QError::InvalidPaletteSize));
    assert_eq!(Palette::read(&[0; 769]).err(), Some(QError::InvalidPaletteSize));
    assert_eq!(Palette::read(&[0; 771]).err(), Some(QError::InvalidPaletteSize));
    assert!(Palette::read(&[0; 768]).is_ok());
    assert!(Palette::read(&[0; 3]).is_ok());
}

#[test]
fn palette_from_image_lists_each_pixel_value_once() {
    let pixels = vec![
        px(1, 2, 3, 255),
        px(9, 9, 9, 255),
        px(1, 2, 3, 255),
        px(1, 2, 3, 0),
        px(9, 9, 9, 255),
        px(0, 200, 0, 255),
    ];
    let image = Raster::new(3, 2, pixels).unwrap();
    let palette = Palette::from_image(&image).unwrap();
    let mut listed: Vec<Color> = palette.map()[..4].to_vec();
    listed.sort_by_key(|c| (c.r, c.g, c.b));
    assert_eq!(
        listed,
        vec![
            Color { r: 0, g: 200, b: 0 },
            Color { r: 1, g: 2, b: 3 },
            Color { r: 1, g: 2, b: 3 },
            Color { r: 9, g: 9, b: 9 }
        ]
    );
    for color in &palette.map()[4..] {
        assert_eq!(*color, Color { r: 0, g: 0, b: 0 });
    }
}

#[test]
fn palette_from_image_takes_up_to_256_values() {
    let full: Vec<Rgba> = (0..256u32).map(|i| px(i as u8, 7, 7, 255)).collect();
    let image = Raster::new(256, 1, full.clone()).unwrap();
    let palette = Palette::from_image(&image).unwrap();
    let mut reds: Vec<u8> = palette.map().iter().map(|c| c.r).collect();
    reds.sort();
    assert_eq!(reds, (0..=255u8).collect::<Vec<u8>>());

    let mut more = full;
    more.push(px(0, 8, 8, 255));
    let image = Raster::new(257, 1, more).unwrap();
    assert_eq!(Palette::from_image(&image).err(), Some(QError::InvalidPaletteSize));
}

#[test]
fn palette_from_empty_image_fails() {
    let image = Raster::new(0, 5, Vec::new()).unwrap();
    assert_eq!(Palette::from_image(&image).err(), Some(QError::InvalidPaletteSize));
}

#[test]
fn raster_checks_its_size() {
    assert!(Raster::new(2, 2, vec![px(0, 0, 0, 0); 3]).is_none());
    let raster = Raster::new(2, 3, vec![px(1, 1, 1, 1); 6]).unwrap();
    assert_eq!(raster.width(), 2);
    assert_eq!(raster.height(), 3);
    assert_eq!(raster.pixels().len(), 6);
    assert_eq!(px(1, 2, 3, 4).to_rgb(), Color { r: 1, g: 2, b: 3 });
}
