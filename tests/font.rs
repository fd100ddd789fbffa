use ahfs::font::{CharacterToGlyphIndexMappingTable, Format, Region};

fn cmap_with(platform: u16, encoding: u16, subtable: &[u8]) -> Vec<u8> {
    let mut data = vec![0, 0, 0, 1];
    data.extend_from_slice(&platform.to_be_bytes());
    data.extend_from_slice(&encoding.to_be_bytes());
    data.extend_from_slice(&12u32.to_be_bytes());
    data.extend_from_slice(subtable);
    data
}

fn table(data: &[u8]) -> Option<CharacterToGlyphIndexMappingTable<'_>> {
    let file = Region::new(data);
    let cmap = file.subregion(0, data.len()).unwrap();
    CharacterToGlyphIndexMappingTable::try_new(&file, cmap)
}

fn words(values: &[u16]) -> Vec<u8> {
    values.iter().flat_map(|v| v.to_be_bytes()).collect()
}

#[test]
fn format_numbers() {
    assert_eq!(Some(Format::Type0), Format::try_new(0));
    assert_eq!(Some(Format::Type4), Format::try_new(4));
    assert_eq!(Some(Format::Type6), Format::try_new(6));
    assert_eq!(Some(Format::Type12), Format::try_new(12));
    assert_eq!(Some(Format::Type13), Format::try_new(13));
    assert_eq!(None, Format::try_new(2));
}

#[test]
fn region_reads_big_endian() {
    let data = [1u8, 2, 3, 4, 5];
    let region = Region::new(&data);
    assert_eq!(Some(0x0102), region.read_u16_at(0));
    assert_eq!(Some(0x02030405), region.read_u32_at(1));
    assert_eq!(None, region.read_u32_at(2));
    assert_eq!(Some(5), region.read_u8_at(4));
    assert_eq!(None, region.read_u8_at(5));
    let inner = region.subregion(1, 3).unwrap();
    assert_eq!(Some(0x0203), inner.read_u16_at(0));
    assert_eq!(None, inner.read_u16_at(1));
    assert!(region.subregion(3, 6).is_none());
}

#[test]
fn format_0_maps_bytes() {
    let mut sub = words(&[0, 10, 0]);
    sub.extend_from_slice(&[9, 8, 7, 6]);
    let data = cmap_with(0, 3, &sub);
    let t = table(&data).unwrap();
    assert_eq!(9, t.lookup('\u{0}'));
    assert_eq!(6, t.lookup('\u{3}'));
    assert_eq!(0, t.lookup('\u{4}'));
}

#[test]
fn format_4_segments() {
    let sub = words(&[4, 32, 0, 4, 4, 1, 0, 0x5A, 0xFFFF, 0, 0x41, 0xFFFF, 3, 1, 0, 0]);
    let data = cmap_with(3, 1, &sub);
    let t = table(&data).unwrap();
    assert_eq!(0x44, t.lookup('A'));
    assert_eq!(0x5D, t.lookup('Z'));
    assert_eq!(0, t.lookup('['));
    assert_eq!(0, t.lookup('@'));
    assert_eq!(0, t.lookup('😀'));
    let wrapping = words(&[4, 32, 0, 4, 4, 1, 0, 0x5A, 0xFFFF, 0, 0x41, 0xFFFF, 0xFFFD, 1, 0, 0]);
    let data = cmap_with(3, 10, &wrapping);
    assert_eq!(0x3E, table(&data).unwrap().lookup('A'));
}

#[test]
fn format_6_trimmed_array() {
    let sub = words(&[6, 16, 0, 0x41, 3, 5, 6, 7]);
    let data = cmap_with(0, 0, &sub);
    let t = table(&data).unwrap();
    assert_eq!(5, t.lookup('A'));
    assert_eq!(7, t.lookup('C'));
    assert_eq!(0, t.lookup('D'));
    assert_eq!(0, t.lookup('@'));
}

#[test]
fn formats_12_and_13_groups() {
    let mut sub = words(&[12, 0, 0, 0, 0, 0, 1, 0]);
    sub.extend_from_slice(&0x1F600u32.to_be_bytes());
    sub.extend_from_slice(&0x1F64Fu32.to_be_bytes());
    sub.extend_from_slice(&100u32.to_be_bytes());
    let data = cmap_with(0, 4, &sub);
    let t = table(&data).unwrap();
    assert_eq!(100, t.lookup('\u{1F600}'));
    assert_eq!(101, t.lookup('\u{1F601}'));
    assert_eq!(0, t.lookup('\u{1F650}'));
    sub[1] = 13;
    let data = cmap_with(0, 4, &sub);
    let t = table(&data).unwrap();
    assert_eq!(100, t.lookup('\u{1F601}'));
}

#[test]
fn tables_that_cannot_be_used() {
    let sub = words(&[6, 16, 0, 0x41, 3, 5, 6, 7]);
    let mut bad_version = cmap_with(0, 0, &sub);
    bad_version[1] = 1;
    assert!(table(&bad_version).is_none());
    assert!(table(&cmap_with(1, 0, &sub)).is_none());
    assert!(table(&cmap_with(3, 0, &sub)).is_none());
    assert!(table(&cmap_with(0, 0, &words(&[2, 0]))).is_none());
    assert!(table(&[0, 0, 0, 1, 0]).is_none());
}
