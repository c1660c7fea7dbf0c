use fntforge::kerning::kerning_pairs;

/// A font file holding the given tables.
fn font(tables: &[(&[u8; 4], Vec<u8>)]) -> Vec<u8> {
    let n = tables.len();
    let mut out = 0x0001_0000u32.to_be_bytes().to_vec();
    out.extend((n as u16).to_be_bytes());
    out.extend([0u8; 6]);
    let mut offset = 12 + 16 * n;
    let mut body: Vec<u8> = Vec::new();
    for (tag, data) in tables {
        out.extend(tag.iter());
        out.extend(0u32.to_be_bytes());
        out.extend((offset as u32).to_be_bytes());
        out.extend((data.len() as u32).to_be_bytes());
        body.extend(data.iter());
        offset += data.len();
    }
    out.extend(body);
    out
}

fn head(units: u16) -> Vec<u8> {
    let mut h = vec![0u8; 54];
    h[18..20].copy_from_slice(&units.to_be_bytes());
    h
}

/// A Unicode cmap (format 0) mapping 'A' to 1, 'V' to 2 and 'o' to 3.
fn cmap() -> Vec<u8> {
    let mut c = vec![0, 0, 0, 1, 0, 0, 0, 3, 0, 0, 0, 12];
    c.extend([0, 0, 1, 6, 0, 0]);
    let mut ids = [0u8; 256];
    ids[b'A' as usize] = 1;
    ids[b'V' as usize] = 2;
    ids[b'o' as usize] = 3;
    c.extend(ids);
    c
}

/// An OpenType kern table with format-0 subtables of `(left, right, value)` pairs.
fn kern(subtables: &[Vec<(u16, u16, i16)>]) -> Vec<u8> {
    let mut k = vec![0u8, 0];
    k.extend((subtables.len() as u16).to_be_bytes());
    for pairs in subtables {
        let len = 6 + 8 + 6 * pairs.len();
        k.extend([0u8, 0]);
        k.extend((len as u16).to_be_bytes());
        k.extend([0u8, 1]);
        k.extend((pairs.len() as u16).to_be_bytes());
        k.extend([0u8; 6]);
        for &(l, r, v) in pairs {
            k.extend(l.to_be_bytes());
            k.extend(r.to_be_bytes());
            k.extend(v.to_be_bytes());
        }
    }
    k
}

fn base_tables(units: u16) -> Vec<(&'static [u8; 4], Vec<u8>)> {
    vec![
        (b"cmap", cmap()),
        (b"head", head(units)),
        (b"hhea", vec![0u8; 36]),
        (b"maxp", vec![0, 0, 0x50, 0, 0, 4]),
    ]
}

const GLYPHS: [(u32, char); 4] = [(65, 'A'), (86, 'V'), (111, 'o'), (90, 'Z')];

#[test]
fn first_subtable_that_kerns_a_pair_wins() {
    let mut tables = base_tables(1000);
    tables.push((
        b"kern",
        kern(&[vec![(1, 2, -80), (2, 1, 0), (2, 3, -40)], vec![(1, 2, 99), (1, 3, 25)]]),
    ));
    let f = font(&tables);
    let (units, pairs) = kerning_pairs(&f, &GLYPHS).unwrap();
    assert_eq!(units, 1000);
    assert_eq!(pairs, vec![(65, 86, -80), (65, 111, 25), (86, 65, 0), (86, 111, -40)]);
}

#[test]
fn no_kern_table_no_pairs() {
    let f = font(&base_tables(2048));
    assert_eq!(kerning_pairs(&f, &GLYPHS), None);
}

#[test]
fn not_a_font_no_pairs() {
    assert_eq!(kerning_pairs(&[0u8; 64], &GLYPHS), None);
    assert_eq!(kerning_pairs(&[], &[]), None);
}

#[test]
fn empty_kern_table_kerns_nothing() {
    let mut tables = base_tables(1000);
    tables.push((b"kern", kern(&[])));
    let f = font(&tables);
    assert_eq!(kerning_pairs(&f, &GLYPHS), Some((1000, vec![])));
}
