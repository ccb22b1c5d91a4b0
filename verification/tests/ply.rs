use mass_raytrace::ply::{
    find_whole, read_header, DataType, Format, PlyDescription, PlyError, PlyFace, PlyLoader,
    PlyNumber, Property, Whole,
};

fn text(number: &PlyNumber) -> String {
    match number {
        PlyNumber::Text(word) => String::from_utf8(word.clone()).unwrap(),
        other => panic!("not a word: {:?}", other),
    }
}

const ASCII_TRIANGLE: &str = "ply\nformat ascii 1.0\ncomment one triangle\nelement vertex 3\nproperty float x\nproperty float y\nproperty float z\nelement face 1\nproperty list uchar int vertex_indices\nend_header\n0 0 0\n1 0 0\n0 1.5 0\n3 0 1 2\n";

#[test]
fn ascii_triangle_is_read() {
    let mesh = PlyLoader::load(ASCII_TRIANGLE.as_bytes()).unwrap();
    assert_eq!(mesh.vertices.len(), 3);
    assert_eq!(text(&mesh.vertices[2].x), "0");
    assert_eq!(text(&mesh.vertices[2].y), "1.5");
    assert_eq!(text(&mesh.vertices[2].z), "0");
    assert_eq!(mesh.faces, vec![PlyFace { a: 0, b: 1, c: 2 }]);
}

#[test]
fn header_is_described() {
    let (desc, body) = read_header(ASCII_TRIANGLE.as_bytes()).unwrap();
    assert_eq!(desc.format, Format::Ascii);
    assert_eq!(desc.elements.len(), 2);
    assert_eq!(desc.elements[0].name, b"vertex".to_vec());
    assert_eq!(desc.elements[0].count, 3);
    assert_eq!(desc.elements[0].properties.len(), 3);
    assert_eq!(desc.elements[1].name, b"face".to_vec());
    assert_eq!(desc.elements[1].count, 1);
    match &desc.elements[1].properties[0] {
        Property::List(name, count_kind, kind) => {
            assert_eq!(name, &b"vertex_indices".to_vec());
            assert_eq!(*count_kind, DataType::UChar);
            assert_eq!(*kind, DataType::Int);
        }
        other => panic!("not a list: {:?}", other),
    }
    assert_eq!(&ASCII_TRIANGLE.as_bytes()[body..body + 5], b"0 0 0");
}

#[test]
fn ascii_body_needs_a_blank_after_the_last_word() {
    let cut = &ASCII_TRIANGLE.as_bytes()[..ASCII_TRIANGLE.len() - 1];
    assert!(matches!(PlyLoader::load(cut), Err(PlyError::UnexpectedEof)));
}

fn binary_header(format: &str) -> Vec<u8> {
    format!(
        "ply\nformat {} 1.0\nelement vertex 3\nproperty float x\nproperty double y\nproperty short z\nproperty uchar red\nelement face 2\nproperty list uchar uint vertex_indices\nend_header\n",
        format
    )
    .into_bytes()
}

#[test]
fn little_endian_body_is_read() {
    let mut file = binary_header("binary_little_endian");
    for i in 0..3u8 {
        file.extend_from_slice(&(1.5f32 + i as f32).to_le_bytes());
        file.extend_from_slice(&(-2.25f64).to_le_bytes());
        file.extend_from_slice(&(-7i16).to_le_bytes());
        file.push(200);
    }
    file.push(3);
    for i in [2u32, 1, 0] {
        file.extend_from_slice(&i.to_le_bytes());
    }
    file.push(4);
    for i in [0u32, 1, 2, 0] {
        file.extend_from_slice(&i.to_le_bytes());
    }
    let mesh = PlyLoader::load(&file).unwrap();
    assert_eq!(mesh.vertices.len(), 3);
    match (&mesh.vertices[1].x, &mesh.vertices[1].y, &mesh.vertices[1].z) {
        (PlyNumber::Single(x), PlyNumber::Double(y), PlyNumber::Integer(z)) => {
            assert_eq!(f32::from_bits(*x), 2.5);
            assert_eq!(f64::from_bits(*y), -2.25);
            assert_eq!(*z, -7);
        }
        other => panic!("unexpected coordinates: {:?}", other),
    }
    assert_eq!(mesh.faces, vec![PlyFace { a: 2, b: 1, c: 0 }]);
}

#[test]
fn big_endian_body_is_read() {
    let mut file = binary_header("binary_big_endian");
    for _ in 0..3u8 {
        file.extend_from_slice(&(0.5f32).to_be_bytes());
        file.extend_from_slice(&(1.0e10f64).to_be_bytes());
        file.extend_from_slice(&(258i16).to_be_bytes());
        file.push(0);
    }
    for _ in 0..2 {
        file.push(3);
        for i in [0u32, 2, 1] {
            file.extend_from_slice(&i.to_be_bytes());
        }
    }
    let mesh = PlyLoader::load(&file).unwrap();
    match (&mesh.vertices[0].x, &mesh.vertices[0].y, &mesh.vertices[0].z) {
        (PlyNumber::Single(x), PlyNumber::Double(y), PlyNumber::Integer(z)) => {
            assert_eq!(f32::from_bits(*x), 0.5);
            assert_eq!(f64::from_bits(*y), 1.0e10);
            assert_eq!(*z, 258);
        }
        other => panic!("unexpected coordinates: {:?}", other),
    }
    assert_eq!(mesh.faces, vec![PlyFace { a: 0, b: 2, c: 1 }, PlyFace { a: 0, b: 2, c: 1 }]);
}

#[test]
fn first_line_must_be_ply() {
    assert!(matches!(PlyLoader::load(b"plx\nend_header\n"), Err(PlyError::InvalidFile)));
    assert!(matches!(PlyLoader::load(b""), Err(PlyError::InvalidFile)));
    assert!(PlyLoader::load(b"  ply \r\nend_header\n").is_ok());
}

#[test]
fn unknown_format_is_refused_with_its_words() {
    match PlyLoader::load(b"ply\nformat ascii 2.0\nend_header\n") {
        Err(PlyError::InvalidFormat(format, version)) => {
            assert_eq!(format, b"ascii".to_vec());
            assert_eq!(version, b"2.0".to_vec());
        }
        other => panic!("unexpected: {:?}", other),
    }
    match PlyLoader::load(b"ply\nformat\nend_header\n") {
        Err(PlyError::InvalidFormat(format, version)) => {
            assert!(format.is_empty());
            assert!(version.is_empty());
        }
        other => panic!("unexpected: {:?}", other),
    }
}

#[test]
fn element_without_count_is_refused_with_its_line() {
    match PlyLoader::load(b"ply\nelement vertex many\nend_header\n") {
        Err(PlyError::InvalidElement(line)) => assert_eq!(line, b"element vertex many\n".to_vec()),
        other => panic!("unexpected: {:?}", other),
    }
    // two spaces make an empty name, and the name then stands where the count should
    assert!(matches!(
        PlyLoader::load(b"ply\nelement  vertex 3\nend_header\n"),
        Err(PlyError::InvalidElement(_))
    ));
}

#[test]
fn property_without_known_type_is_refused_with_its_line() {
    match PlyLoader::load(b"ply\nelement vertex 0\nproperty quad x\nend_header\n") {
        Err(PlyError::InvalidProperty(line)) => assert_eq!(line, b"property quad x\n".to_vec()),
        other => panic!("unexpected: {:?}", other),
    }
    assert!(matches!(
        PlyLoader::load(b"ply\nelement face 0\nproperty list uchar int\nend_header\n"),
        Err(PlyError::InvalidProperty(_))
    ));
    // a bare `property` line says nothing and is passed over
    assert!(PlyLoader::load(b"ply\nelement face 0\nproperty\nend_header\n").is_ok());
}

#[test]
fn header_without_end_is_cut_short() {
    assert!(matches!(
        PlyLoader::load(b"ply\nformat ascii 1.0\nelement vertex 1\n"),
        Err(PlyError::UnexpectedEof)
    ));
}

#[test]
fn face_before_its_vertices_is_refused() {
    let file = b"ply\nformat ascii 1.0\nelement face 1\nproperty list uchar int vertex_indices\nelement vertex 3\nproperty float x\nproperty float y\nproperty float z\nend_header\n3 0 1 2\n0 0 0\n1 0 0\n0 1 0\n";
    assert!(matches!(PlyLoader::load(file), Err(PlyError::MissingVertex)));
}

#[test]
fn list_length_must_be_an_unsigned_integer() {
    let file = b"ply\nformat ascii 1.0\nelement face 1\nproperty list uchar int vertex_indices\nend_header\n-3 0 1 2\n";
    assert!(matches!(PlyLoader::load(file), Err(PlyError::InvalidNumber)));
    let mut file =
        b"ply\nformat binary_little_endian 1.0\nelement face 1\nproperty list char int vertex_indices\nend_header\n"
            .to_vec();
    file.push(0xff);
    assert!(matches!(PlyLoader::load(&file), Err(PlyError::InvalidNumber)));
}

#[test]
fn other_lists_and_elements_are_passed_over() {
    let file = b"ply\nformat ascii 1.0\nelement vertex 2\nproperty float x\nproperty float y\nproperty float z\nproperty list uchar float weights\nelement edge 1\nproperty int a\nproperty int b\nelement face 1\nproperty list uchar int vertex_indices\nend_header\n1 2 3 2 0.5 0.5\n4 5 6 0\n0 1\n4 0 1 0 1\n";
    let mesh = PlyLoader::load(file).unwrap();
    assert_eq!(mesh.vertices.len(), 2);
    assert_eq!(text(&mesh.vertices[1].z), "6");
    assert!(mesh.faces.is_empty());
}

#[test]
fn vertex_rows_without_all_coordinates_give_no_vertex() {
    let file = b"ply\nformat ascii 1.0\nelement vertex 2\nproperty float x\nproperty float y\nend_header\n1 2\n3 4\n";
    let mesh = PlyLoader::load(file).unwrap();
    assert!(mesh.vertices.is_empty());
}

#[test]
fn description_collects_elements_and_properties() {
    let mut desc = PlyDescription::new();
    assert_eq!(desc.format, Format::Ascii);
    desc.add_property(b"lost".to_vec(), DataType::Int);
    assert!(desc.elements.is_empty());
    desc.add_element(b"vertex".to_vec(), 8);
    desc.add_property(b"x".to_vec(), DataType::Float);
    desc.add_element(b"face".to_vec(), 12);
    desc.add_property_list(b"vertex_indices".to_vec(), DataType::UChar, DataType::Int);
    assert_eq!(desc.elements.len(), 2);
    assert_eq!(desc.elements[0].properties.len(), 1);
    assert_eq!(desc.elements[1].properties.len(), 1);
    assert_eq!(desc.elements[1].count, 12);
}

#[test]
fn skip_passes_over_one_number() {
    let bytes = [1u8, 2, 3, 4, 5, 6, 7, 8, 9];
    assert_eq!(Format::BinaryLE.skip(&bytes, 0, DataType::Char).unwrap(), 1);
    assert_eq!(Format::BinaryLE.skip(&bytes, 1, DataType::UShort).unwrap(), 3);
    assert_eq!(Format::BinaryBE.skip(&bytes, 1, DataType::Float).unwrap(), 5);
    assert_eq!(Format::BinaryBE.skip(&bytes, 1, DataType::Double).unwrap(), 9);
    assert!(matches!(Format::BinaryBE.skip(&bytes, 2, DataType::Double), Err(PlyError::UnexpectedEof)));
    assert_eq!(Format::Ascii.skip(b"  12.5 7", 0, DataType::Int).unwrap(), 7);
    assert!(matches!(Format::Ascii.skip(b"  12.5 7", 7, DataType::Int), Err(PlyError::UnexpectedEof)));
}

#[test]
fn read_usize_decodes_both_byte_orders() {
    let bytes = [0x01u8, 0x02, 0x03, 0x04];
    assert_eq!(Format::BinaryLE.read_usize(&Vec::new(), &bytes, 0, DataType::UShort).unwrap(), (0x0201, 2));
    assert_eq!(Format::BinaryBE.read_usize(&Vec::new(), &bytes, 0, DataType::UShort).unwrap(), (0x0102, 2));
    assert_eq!(Format::BinaryLE.read_usize(&Vec::new(), &bytes, 0, DataType::UInt).unwrap(), (0x04030201, 4));
    assert_eq!(Format::BinaryBE.read_usize(&Vec::new(), &bytes, 0, DataType::Int).unwrap(), (0x01020304, 4));
    assert_eq!(Format::Ascii.read_usize(&Vec::new(), b"+17\n", 0, DataType::UInt).unwrap(), (17, 4));
    assert_eq!(Format::Ascii.read_usize(&Vec::new(), b"  7 8 ", 3, DataType::Char).unwrap(), (8, 6));
    assert!(matches!(
        Format::BinaryLE.read_usize(&Vec::new(), &[0xfe, 0xff], 0, DataType::Short),
        Err(PlyError::InvalidNumber)
    ));
    assert!(matches!(
        Format::Ascii.read_usize(&Vec::new(), b"3.0 ", 0, DataType::Int),
        Err(PlyError::InvalidNumber)
    ));
    assert!(matches!(
        Format::Ascii.read_usize(&Vec::new(), b"-3 ", 0, DataType::Int),
        Err(PlyError::InvalidNumber)
    ));
}

#[test]
fn read_usize_takes_the_whole_part_of_floating_numbers() {
    for value in [0.0f32, 0.75, 1.0, 3.0, 3.99, 255.5, 1.0e9, -2.0, f32::NAN, f32::INFINITY, 1.0e30] {
        let bytes = value.to_le_bytes();
        assert_eq!(
            Format::BinaryLE.read_usize(&Vec::new(), &bytes, 0, DataType::Float).unwrap(),
            (value as usize, 4),
            "{}",
            value
        );
        let bytes = (value as f64).to_be_bytes();
        assert_eq!(
            Format::BinaryBE.read_usize(&Vec::new(), &bytes, 0, DataType::Double).unwrap(),
            (value as f64 as usize, 8),
            "{}",
            value
        );
    }
    let mut file =
        b"ply\nformat binary_little_endian 1.0\nelement vertex 1\nproperty float x\nproperty float y\nproperty float z\nelement face 1\nproperty list float float vertex_indices\nend_header\n"
            .to_vec();
    for v in [1.0f32, 2.0, 3.0, 3.0, 0.0, 0.5, 0.99] {
        file.extend_from_slice(&v.to_le_bytes());
    }
    let mesh = PlyLoader::load(&file).unwrap();
    assert_eq!(mesh.faces, vec![PlyFace { a: 0, b: 0, c: 0 }]);
}

#[test]
fn ascii_words_end_at_white_space_of_the_first_256_code_points() {
    for b in 1..=255u8 {
        let bytes = [b'1', b, b'2', b' '];
        let next = Format::Ascii.skip(&bytes, 0, DataType::Int).unwrap();
        if (b as char).is_whitespace() {
            assert_eq!(next, 2, "{:#x}", b);
        } else {
            assert_eq!(next, 4, "{:#x}", b);
        }
    }
    match Format::Ascii.read_number(b"\xa0\x85 12.5\xa0", 0, DataType::Float).unwrap() {
        (PlyNumber::Text(word), next) => {
            assert_eq!(word, b"12.5".to_vec());
            assert_eq!(next, 8);
        }
        other => panic!("unexpected: {:?}", other),
    }
}

#[test]
fn whole_parts_of_floating_words_are_asked_for_and_taken_as_handed_over() {
    // nothing handed over: the word is asked for, whatever it spells
    for word in ["3.0", "3", "2.75", "1e1", "-4", "nan"] {
        let bytes = format!(" {}\n", word).into_bytes();
        for kind in [DataType::Float, DataType::Double] {
            match Format::Ascii.read_usize(&Vec::new(), &bytes, 0, kind) {
                Err(PlyError::NeedsWhole(at, asked)) => {
                    assert_eq!(at, 0);
                    assert_eq!(asked, word.as_bytes());
                }
                other => panic!("unexpected: {:?}", other),
            }
        }
    }
    // handed over for the position: taken as it is
    let wholes = vec![Whole { at: 4, count: 9 }, Whole { at: 0, count: 3 }, Whole { at: 0, count: 5 }];
    assert_eq!(Format::Ascii.read_usize(&wholes, b"3.7 11.2 ", 0, DataType::Float).unwrap(), (3, 4));
    assert_eq!(Format::Ascii.read_usize(&wholes, b"3.7 11.2 ", 4, DataType::Double).unwrap(), (9, 9));
    assert!(matches!(
        Format::Ascii.read_usize(&wholes, b"3.7 11.2 ", 3, DataType::Double),
        Err(PlyError::NeedsWhole(3, _))
    ));
    // words of integer types and binary numbers take nothing from what was handed over
    assert_eq!(Format::Ascii.read_usize(&wholes, b"12 ", 0, DataType::UChar).unwrap(), (12, 3));
    assert_eq!(
        Format::BinaryLE.read_usize(&wholes, &2.5f32.to_le_bytes(), 0, DataType::Float).unwrap(),
        (2, 4)
    );
    // the file ends before the word does
    assert!(matches!(
        Format::Ascii.read_usize(&wholes, b"3.7", 0, DataType::Float),
        Err(PlyError::UnexpectedEof)
    ));
    assert_eq!(find_whole(&wholes, 0), Some(3));
    assert_eq!(find_whole(&wholes, 4), Some(9));
    assert_eq!(find_whole(&wholes, 1), None);
    assert_eq!(find_whole(&Vec::new(), 0), None);
}

#[test]
fn ascii_file_with_floating_list_types_is_read_in_rounds() {
    let file = b"ply\nformat ascii 1.0\nelement vertex 3\nproperty float x\nproperty float y\nproperty float z\nelement face 2\nproperty list float double vertex_indices\nend_header\n0 0 0\n1 0 0\n0 1 0\n3.0 0 1.9 2\n3 2.5 1 0e0\n";
    // the first reading asks for the first length
    assert!(matches!(PlyLoader::load(file), Err(PlyError::NeedsWhole(_, w)) if w == b"3.0"));
    // each round hands over the whole part that the last one asked for
    let mut wholes: Vec<Whole> = Vec::new();
    let mut rounds = 0;
    let mesh = loop {
        rounds += 1;
        assert!(rounds <= 9);
        match PlyLoader::load_with(file, &wholes) {
            Err(PlyError::NeedsWhole(at, word)) => {
                let value: f64 = String::from_utf8(word).unwrap().parse().unwrap();
                wholes.push(Whole { at, count: value as usize });
            }
            other => break other.unwrap(),
        }
    };
    assert_eq!(rounds, 9);
    assert_eq!(mesh.vertices.len(), 3);
    assert_eq!(mesh.faces, vec![PlyFace { a: 0, b: 1, c: 2 }, PlyFace { a: 2, b: 1, c: 0 }]);
    // a length that is not three gives no triangle
    let mut other = wholes.clone();
    other[0].count = 4;
    let longer = b"ply\nformat ascii 1.0\nelement vertex 1\nproperty float x\nproperty float y\nproperty float z\nelement face 1\nproperty list float int vertex_indices\nend_header\n0 0 0\n4.2 0 0 0 0\n";
    let at = match PlyLoader::load(longer) {
        Err(PlyError::NeedsWhole(at, _)) => at,
        other => panic!("unexpected: {:?}", other.map(|m| m.faces.len())),
    };
    let mesh = PlyLoader::load_with(longer, &vec![Whole { at, count: 4 }]).unwrap();
    assert!(mesh.faces.is_empty());
    let mesh = PlyLoader::load_with(longer, &vec![Whole { at, count: 3 }]).unwrap();
    assert_eq!(mesh.faces, vec![PlyFace { a: 0, b: 0, c: 0 }]);
}
