use openlogi_flow::host_name::{decode_name, name_in_text, NamePages};
use openlogi_flow::host_table::{
    slot_from, table_to_read, table_update, SlotReading, TableRead, TableReader, TableUpdate,
};
use openlogi_flow::hosts::{HostSlot, HostTable};
use openlogi_flow::link::{DeviceRoute, HostSwitchLink};

fn slot(index: u8, name: Option<&str>) -> HostSlot {
    HostSlot {
        index,
        paired: name.is_some(),
        name: name.map(str::to_string),
    }
}

#[test]
fn channel_is_one_past_the_index() {
    assert_eq!(slot(0, None).channel(), 1);
    assert_eq!(slot(2, None).channel(), 3);
}

#[test]
fn current_slot_is_resolved_by_index_not_position() {
    // A device that reports slots out of order must not be read
    // positionally: `current` names an index, not an offset.
    let table = HostTable {
        current: 1,
        slots: vec![slot(2, Some("laptop")), slot(1, Some("desktop"))],
    };
    assert_eq!(
        table.current_slot().and_then(|slot| slot.name.as_deref()),
        Some("desktop")
    );
}

#[test]
fn a_current_slot_missing_from_the_table_is_none() {
    let table = HostTable {
        current: 5,
        slots: vec![slot(0, None)],
    };
    assert_eq!(table.current_slot(), None);
}

#[test]
fn padding_and_blanks_are_not_names() {
    assert_eq!(decode_name(b""), None);
    assert_eq!(decode_name(&[0; 14]), None);
    assert_eq!(decode_name(b"   "), None);
}

#[test]
fn a_padded_name_keeps_its_content() {
    let mut raw = b"DESKTOP-0B5NC53".to_vec();
    raw.extend_from_slice(&[0; 13]);
    assert_eq!(decode_name(&raw).as_deref(), Some("DESKTOP-0B5NC53"));
}

#[test]
fn invalid_utf8_degrades_instead_of_failing() {
    // A slot written by another OS can hold bytes this host cannot decode;
    // a replacement char is more useful than hiding the slot.
    let decoded = decode_name(&[b'A', 0xff, b'B']).expect("lossy decode keeps the ASCII");
    assert!(decoded.starts_with('A'));
    assert!(decoded.ends_with('B'));
}

#[test]
fn invalid_bytes_become_replacement_characters() {
    assert_eq!(
        decode_name(&[b'A', 0xff, b'B']).as_deref(),
        Some("A\u{fffd}B")
    );
}

#[test]
fn the_last_channel_does_not_wrap() {
    assert_eq!(slot(u8::MAX, None).channel(), u8::MAX);
}

#[test]
fn only_padding_at_the_end_is_dropped() {
    assert_eq!(name_in_text("\0A\0B\0\0").as_deref(), Some("\0A\0B"));
    // White space is trimmed after the padding, and no padding after that.
    assert_eq!(name_in_text(" A\0 \0").as_deref(), Some("A\0"));
    assert_eq!(name_in_text("\0 "), Some("\0".to_owned()));
}

#[test]
fn every_white_space_character_is_trimmed() {
    for scalar in 0..=0x10_ffff_u32 {
        let Some(character) = char::from_u32(scalar) else {
            continue;
        };
        if scalar <= 0x3100 {
            let text = format!("{character}x{character}");
            let native = text.trim_end_matches('\0').trim();
            assert_eq!(name_in_text(&text).as_deref(), Some(native), "{scalar:#x}");
        }
        let white = (0x09..=0x0d).contains(&scalar)
            || [0x20, 0x85, 0xa0, 0x1680, 0x2028, 0x2029, 0x202f, 0x205f, 0x3000].contains(&scalar)
            || (0x2000..=0x200a).contains(&scalar);
        assert_eq!(character.is_whitespace(), white, "{scalar:#x}");
    }
}

#[test]
fn names_beyond_ascii_are_kept_whole() {
    assert_eq!(
        decode_name("  Büro – 東京 \0\0".as_bytes()).as_deref(),
        Some("Büro – 東京")
    );
}

fn page(text: &[u8]) -> [u8; 14] {
    let mut body = [0; 14];
    body[..text.len()].copy_from_slice(text);
    body
}

#[test]
fn a_name_is_put_together_from_its_pages() {
    let mut pages = NamePages::start(15).expect("the name has a length");
    assert_eq!(pages.next_page(), Some(0));
    pages = pages.with_page(&page(b"DESKTOP-0B5NC5"));
    assert_eq!(pages.next_page(), Some(1));
    // What stands past the reported length is no part of the name.
    pages = pages.with_page(&page(b"3 and more"));
    assert_eq!(pages.next_page(), None);
    assert_eq!(pages.finish().as_deref(), Some("DESKTOP-0B5NC53"));
}

#[test]
fn a_name_without_length_is_none() {
    assert!(NamePages::start(0).is_none());
}

#[test]
fn an_unreadable_page_leaves_what_was_read() {
    let pages = NamePages::start(40)
        .expect("the name has a length")
        .with_page(&page(b"DESKTOP-0B5NC5"));
    assert_eq!(pages.next_page(), Some(1));
    assert_eq!(pages.finish().as_deref(), Some("DESKTOP-0B5NC5"));
    assert_eq!(NamePages::start(3).expect("it has a length").finish(), None);
}

#[test]
fn the_longest_name_takes_nineteen_pages() {
    let mut pages = NamePages::start(u8::MAX).expect("the name has a length");
    let mut read = 0;
    while let Some(next) = pages.next_page() {
        assert_eq!(next, read);
        pages = pages.with_page(b"fourteen bytes");
        read += 1;
    }
    assert_eq!(read, 19);
    assert_eq!(pages.finish().map(|name| name.len()), Some(255));
}

#[test]
fn an_unreadable_slot_still_appears() {
    assert_eq!(slot_from(1, None), slot(1, None));
    assert_eq!(
        slot_from(
            2,
            Some(SlotReading {
                empty: false,
                name: Some("laptop".to_owned()),
            })
        ),
        slot(2, Some("laptop"))
    );
    assert_eq!(
        slot_from(
            0,
            Some(SlotReading {
                empty: true,
                name: None,
            })
        ),
        slot(0, None)
    );
}

#[test]
fn a_table_lists_every_slot_in_index_order() {
    let mut reader = TableReader::start(3, Some(1));
    let mut asked = Vec::new();
    while let Some(index) = reader.next_slot() {
        asked.push(index);
        reader = reader.with_slot(if index == 1 {
            Some(SlotReading {
                empty: false,
                name: Some("desktop".to_owned()),
            })
        } else {
            None
        });
    }
    assert_eq!(asked, vec![0, 1, 2]);
    let table = reader.finish();
    assert_eq!(table.current, 1);
    assert_eq!(
        table.slots,
        vec![slot(0, None), slot(1, Some("desktop")), slot(2, None)]
    );
    assert_eq!(table.current_slot(), Some(&slot(1, Some("desktop"))));
    assert_eq!(table.clone(), table);
}

#[test]
fn a_device_that_names_no_slot_is_taken_to_be_on_the_first() {
    let table = TableReader::start(0, None).finish();
    assert_eq!(table.current, 0);
    assert_eq!(table.current_slot(), None);
}

#[test]
fn a_table_is_read_from_the_first_keyboard_once_io_is_allowed() {
    let keyboard = DeviceRoute::Bolt {
        receiver_uid: "cafe".to_owned(),
        slot: 1,
    };
    let published = [HostSwitchLink {
        keyboard: keyboard.clone(),
        targets: Vec::new(),
    }];
    assert_eq!(table_to_read(true, &published), Some(keyboard));
    assert_eq!(table_to_read(false, &published), None);
    assert_eq!(table_to_read(true, &[]), None);
}

#[test]
fn an_unreadable_table_leaves_what_is_published() {
    let table = TableReader::start(0, Some(2)).finish();
    assert_eq!(
        table_update(TableRead::Table(table.clone())),
        TableUpdate::Publish(Some(table))
    );
    assert_eq!(
        table_update(TableRead::Unsupported),
        TableUpdate::Publish(None)
    );
    assert_eq!(table_update(TableRead::Failed), TableUpdate::Keep);
}
