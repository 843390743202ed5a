use glob1rs::map::LoadError;
use glob1rs::palette::PaletteEntry;
use glob1rs::sprites::load;

fn palette() -> [PaletteEntry; 256] {
    let mut palette = [PaletteEntry { r: 0, g: 0, b: 0 }; 256];
    for (n, entry) in palette.iter_mut().enumerate() {
        *entry = PaletteEntry { r: n as u8, g: (n as u8).wrapping_mul(2), b: 255 - n as u8 };
    }
    palette[0] = PaletteEntry { r: 11, g: 22, b: 33 };
    palette
}

fn header(height: u16, width: u16) -> Vec<u8> {
    vec![0xab, 0xcd, 0x12, 0x34, (height >> 8) as u8, height as u8, (width >> 8) as u8, width as u8]
}

#[test]
fn an_empty_file_holds_no_image() {
    assert!(load(&[], &palette()).unwrap().is_empty());
}

#[test]
fn pixels_become_colours() {
    let mut bytes = header(2, 2);
    bytes.extend([1, 0, 200, 3]);
    let images = load(&bytes, &palette()).unwrap();
    assert_eq!(images.len(), 1);
    assert_eq!((images[0].width, images[0].height), (2, 2));
    assert_eq!(
        images[0].data,
        [1, 2, 254, 255, 0, 0, 0, 0, 200, 144, 55, 255, 3, 6, 252, 255]
    );
}

#[test]
fn odd_widths_are_stored_with_a_hidden_column() {
    let mut bytes = header(2, 3);
    bytes.extend([1, 2, 3, 4, 5, 0, 7, 8]);
    bytes.extend(header(1, 1));
    bytes.extend([9, 9]);
    let images = load(&bytes, &palette()).unwrap();
    assert_eq!(images.len(), 2);
    assert_eq!((images[0].width, images[0].height), (4, 2));
    assert_eq!(
        images[0].data,
        [
            1, 2, 254, 255, 2, 4, 253, 255, 3, 6, 252, 255, 0, 0, 0, 0, //
            5, 10, 250, 255, 0, 0, 0, 0, 7, 14, 248, 255, 0, 0, 0, 0,
        ]
    );
    assert_eq!((images[1].width, images[1].height), (2, 1));
    assert_eq!(images[1].data, [9, 18, 246, 255, 0, 0, 0, 0]);
}

#[test]
fn terrain_images_are_opaque() {
    let mut bytes = Vec::new();
    for _ in 0..191 {
        bytes.extend(header(0, 0));
    }
    for _ in 191..357 {
        bytes.extend(header(1, 2));
        bytes.extend([0, 5]);
    }
    let images = load(&bytes, &palette()).unwrap();
    assert_eq!(images.len(), 357);
    assert!(images[190].data.is_empty());
    for (n, image) in images.iter().enumerate().skip(191) {
        let first = if (192..=355).contains(&n) { [11, 22, 33, 255] } else { [0, 0, 0, 0] };
        assert_eq!(image.data[..4], first, "image {n}");
        assert_eq!(image.data[4..], [5, 10, 250, 255]);
    }
}

#[test]
fn images_that_are_cut_short_fail_with_end_of_data() {
    assert_eq!(load(&[0], &palette()).unwrap_err(), LoadError::UnexpectedEof);
    assert_eq!(load(&header(1, 1)[..7], &palette()).unwrap_err(), LoadError::UnexpectedEof);
    let mut bytes = header(2, 2);
    bytes.extend([1, 2, 3]);
    assert_eq!(load(&bytes, &palette()).unwrap_err(), LoadError::UnexpectedEof);
    bytes.push(4);
    assert!(load(&bytes, &palette()).is_ok());
    bytes.push(0);
    assert_eq!(load(&bytes, &palette()).unwrap_err(), LoadError::UnexpectedEof);
    let mut bytes = header(1, 1);
    bytes.push(1);
    assert_eq!(load(&bytes, &palette()).unwrap_err(), LoadError::UnexpectedEof);
    let bytes = header(65535, 65535);
    assert_eq!(load(&bytes, &palette()).unwrap_err(), LoadError::UnexpectedEof);
}
