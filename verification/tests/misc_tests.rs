use web_games::misc::with_optional_next;
use web_games::sound_data::{waveforms_list, SerialNumber, SerialNumbers, Waveform};
use web_games::terrain::{Terrain, Tile};

#[test]
fn items_paired_with_the_next() {
    assert_eq!(
        with_optional_next(&[1, 2, 3]),
        vec![(1, Some(2)), (2, Some(3)), (3, None)]
    );
    assert_eq!(with_optional_next::<u8>(&[]), vec![]);
    assert_eq!(with_optional_next(&["a"]), vec![("a", None)]);
}

#[test]
fn waveform_names() {
    let list = waveforms_list();
    assert_eq!(list.len(), 10);
    assert_eq!(list[0], (Waveform::Sine, "Sine"));
    assert_eq!(list[4], (Waveform::WhiteNoise, "White noise"));
    assert_eq!(list[9], (Waveform::Experimental, "Experimental"));
    assert_eq!(Waveform::default(), Waveform::Sine);
}

#[test]
fn serial_numbers_count_up() {
    let mut source = SerialNumbers::new();
    let first = source.next_serial_number();
    let second = source.next_serial_number();
    assert_eq!(first, SerialNumber(0));
    assert_eq!(second, SerialNumber(1));
    assert_ne!(first, second);
}

#[test]
fn empty_tiles() {
    assert_eq!(Terrain::default(), Terrain::Nothing);
    let tile = Tile::default();
    assert!(tile.entities.is_empty());
    assert_eq!(tile.terrain, Terrain::Nothing);
}
