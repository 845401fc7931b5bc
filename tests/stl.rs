use feather::{encode_stl, Facet};

fn facet(normal: [f32; 3], corners: [[f32; 3]; 3]) -> Facet {
    let mut f = [0u32; 12];
    for i in 0..3 {
        f[i] = normal[i].to_bits();
        for j in 0..3 {
            f[3 + 3 * i + j] = corners[i][j].to_bits();
        }
    }
    f
}

fn f32_at(bytes: &[u8], at: usize) -> f32 {
    f32::from_le_bytes([bytes[at], bytes[at + 1], bytes[at + 2], bytes[at + 3]])
}

#[test]
fn one_triangle_file_layout() {
    let f = facet([0.0, 0.0, 1.0], [[0.0, 0.0, 0.0], [1.0, 0.0, 0.0], [0.0, 1.0, 0.0]]);
    let bytes = encode_stl(&vec![f]);
    assert_eq!(bytes.len(), 134);
    assert!(bytes[..80].iter().all(|b| *b == 0));
    assert_eq!(&bytes[80..84], &[1, 0, 0, 0]);
    assert_eq!(f32_at(&bytes, 84), 0.0);
    assert_eq!(f32_at(&bytes, 88), 0.0);
    assert_eq!(f32_at(&bytes, 92), 1.0);
    assert_eq!(f32_at(&bytes, 96 + 12), 1.0);
    assert_eq!(f32_at(&bytes, 96 + 28), 1.0);
    assert_eq!(&bytes[132..134], &[0, 0]);
}

#[test]
fn empty_file_is_header_and_count() {
    let bytes = encode_stl(&vec![]);
    assert_eq!(bytes.len(), 84);
    assert_eq!(&bytes[80..84], &[0, 0, 0, 0]);
}

#[test]
fn words_are_little_endian() {
    let mut f = [0u32; 12];
    f[0] = 0x0403_0201;
    let bytes = encode_stl(&vec![f, f]);
    assert_eq!(bytes.len(), 84 + 100);
    assert_eq!(&bytes[80..84], &[2, 0, 0, 0]);
    assert_eq!(&bytes[84..88], &[1, 2, 3, 4]);
    assert_eq!(&bytes[134..138], &[1, 2, 3, 4]);
}
