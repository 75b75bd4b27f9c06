use geometry_core::asset_import::faces::{triangulate_faces, MeshError};
use geometry_core::asset_import::scan::{find, find_byte, matches_at};
use geometry_core::asset_import::usda_common::{
    extract_bracketed_after, extract_first_xform_name, find_matching, find_matching_brace,
    lookup, mask_from_names, next_mesh, parse_string_list, parse_usize_list, same_bytes,
    skip_chars, space_at, ListError, MaskError, RegistryEntry, UsdaError,
};

fn registry() -> Vec<RegistryEntry> {
    vec![
        RegistryEntry { name: b"floor".to_vec(), id: 0 },
        RegistryEntry { name: b"wall".to_vec(), id: 1 },
        RegistryEntry { name: b"floor".to_vec(), id: 2 },
        RegistryEntry { name: b"sky".to_vec(), id: 40 },
        RegistryEntry { name: b"edge".to_vec(), id: 31 },
    ]
}

fn names(list: &[&str]) -> Vec<Vec<u8>> {
    list.iter().map(|name| name.as_bytes().to_vec()).collect()
}

const ROOM: &str = r#"#usda 1.0
def Xform "room"
{
    def Mesh "floor"
    {
        int[] faceVertexCounts = [4]
        int[] faceVertexIndices = [0, 1, 2, 3]
        point3f[] points = [(0, 0, 0), (4, 0, 0), (4, 0, 3), (0, 0, 3)]
        custom string[] regionsTypeMask = ["floor", "rug"]
    }

    def Mesh "wall_north"
    {
        point3f[] points = [(0, 0, 0), (4, 0, 0), (4, 2, 0)]
        int[] faceVertexCounts = [3]
        int[] faceVertexIndices = [0, 1, 2]
    }
}
"#;

#[test]
fn find_byte_gives_the_first_from_the_start() {
    assert_eq!(find_byte(b"a=b=c", b'=', 0), Some(1));
    assert_eq!(find_byte(b"a=b=c", b'=', 1), Some(1));
    assert_eq!(find_byte(b"a=b=c", b'=', 2), Some(3));
    assert_eq!(find_byte(b"a=b=c", b'=', 4), None);
    assert_eq!(find_byte(b"a=b=c", b'=', 5), None);
    assert_eq!(find_byte(b"a=b=c", b'=', 99), None);
    assert_eq!(find_byte(b"", b'=', 0), None);
}

#[test]
fn find_gives_the_first_occurrence() {
    assert_eq!(find(b"abcabcab", b"cab", 0), Some(2));
    assert_eq!(find(b"abcabcab", b"cab", 3), Some(5));
    assert_eq!(find(b"abcabcab", b"cab", 6), None);
    assert_eq!(find(b"abcabcab", b"abd", 0), None);
    assert_eq!(find(b"abc", b"", 0), Some(0));
    assert_eq!(find(b"abc", b"", 3), Some(3));
    assert_eq!(find(b"abc", b"", 4), None);
    assert_eq!(find(b"ab", b"abc", 0), None);
    assert_eq!(find(b"abc", b"abc", 0), Some(0));
}

#[test]
fn matches_at_compares_in_place() {
    assert!(matches_at(b"hello", b"ell", 1));
    assert!(!matches_at(b"hello", b"ell", 0));
    assert!(!matches_at(b"hello", b"lo!", 3));
    assert!(matches_at(b"hello", b"", 5));
    assert!(!matches_at(b"hello", b"", 6));
    assert!(same_bytes(b"abc", b"abc"));
    assert!(!same_bytes(b"abc", b"abd"));
    assert!(!same_bytes(b"abc", b"ab"));
}

#[test]
fn matching_brace_closes_the_nesting() {
    let text = b"{ a { b } c } d }";
    assert_eq!(find_matching_brace(text, 0), Some(12));
    assert_eq!(find_matching_brace(text, 4), Some(8));
    assert_eq!(find_matching_brace(text, 1), Some(8));
    assert_eq!(find_matching_brace(b"{}", 0), Some(1));
    assert_eq!(find_matching_brace(b"x{{}}{}", 0), Some(4));
}

#[test]
fn matching_brace_fails_on_a_stray_or_missing_close() {
    let text = b"{ a { b } c } d }";
    assert_eq!(find_matching_brace(text, 9), None);
    assert_eq!(find_matching_brace(text, 13), None);
    assert_eq!(find_matching_brace(b"{ { }", 0), None);
    assert_eq!(find_matching_brace(b"}", 0), None);
    assert_eq!(find_matching_brace(b"", 0), None);
    assert_eq!(find_matching_brace(b"{}", 2), None);
    assert_eq!(find_matching_brace(b"{}", 7), None);
    assert_eq!(find_matching_brace(b"no braces", 0), None);
}

#[test]
fn matching_works_for_any_pair() {
    assert_eq!(find_matching(b"[1, [2], 3] [4]", b'[', b']', 0), Some(10));
    assert_eq!(find_matching(b"(a(b)c)", b'(', b')', 2), Some(4));
    assert_eq!(find_matching(b"[1, [2], 3] [4]", b'{', b'}', 0), None);
}

#[test]
fn string_list_takes_quoted_texts_in_pairs() {
    assert_eq!(parse_string_list(br#""floor", "wall""#), names(&["floor", "wall"]));
    assert_eq!(parse_string_list(br#"  "a" x "" y "b c" "#), names(&["a", "", "b c"]));
    assert_eq!(parse_string_list(br#""a", "b"#), names(&["a"]));
    assert_eq!(parse_string_list(br#"""#), names(&[]));
    assert_eq!(parse_string_list(b""), names(&[]));
    assert_eq!(parse_string_list(b"no quotes"), names(&[]));
}

#[test]
fn bracketed_list_after_a_key_is_extracted() {
    let block = b"int[] faceVertexCounts = [3, 4, 3]\nint[] faceVertexIndices = [0, 1]";
    assert_eq!(extract_bracketed_after(block, b"int[] faceVertexCounts"), Some(b"3, 4, 3".to_vec()));
    assert_eq!(extract_bracketed_after(block, b"int[] faceVertexIndices"), Some(b"0, 1".to_vec()));
    assert_eq!(extract_bracketed_after(b"k = [a, [b, c], d] [e]", b"k"), Some(b"a, [b, c], d".to_vec()));
    assert_eq!(extract_bracketed_after(b"k=[]", b"k"), Some(Vec::new()));
    assert_eq!(extract_bracketed_after(b"j = [1] k = [2]", b"k"), Some(b"2".to_vec()));
    assert_eq!(extract_bracketed_after(b"k [0] = [2]", b"k"), Some(b"2".to_vec()));
}

#[test]
fn bracketed_list_with_a_part_missing_is_none() {
    assert_eq!(extract_bracketed_after(b"j = [1]", b"k"), None);
    assert_eq!(extract_bracketed_after(b"k [1]", b"k"), None);
    assert_eq!(extract_bracketed_after(b"k = 1", b"k"), None);
    assert_eq!(extract_bracketed_after(b"k = [1, [2]", b"k"), None);
    assert_eq!(extract_bracketed_after(b"k = [1", b"k"), None);
    assert_eq!(extract_bracketed_after(b"", b"k"), None);
    assert_eq!(extract_bracketed_after(b"k", b"k"), None);
    assert_eq!(extract_bracketed_after(b"k=", b"k"), None);
}

#[test]
fn bracket_search_starts_as_many_characters_in_as_the_bracket_is_bytes_in() {
    assert_eq!(extract_bracketed_after("k = e[1]".as_bytes(), b"k"), Some(b"1".to_vec()));
    assert_eq!(extract_bracketed_after("k = \u{e9}[1]".as_bytes(), b"k"), None);
    assert_eq!(extract_bracketed_after("k=\u{e9}[ [b]]".as_bytes(), b"k"), Some(b" [b".to_vec()));
    assert_eq!(skip_chars("a\u{e9}b".as_bytes(), 0, 0), 0);
    assert_eq!(skip_chars("a\u{e9}b".as_bytes(), 0, 1), 1);
    assert_eq!(skip_chars("a\u{e9}b".as_bytes(), 0, 2), 3);
    assert_eq!(skip_chars("a\u{e9}b".as_bytes(), 0, 3), 4);
    assert_eq!(skip_chars("a\u{e9}b".as_bytes(), 0, 9), 4);
    assert_eq!(skip_chars("a\u{e9}b".as_bytes(), 1, 1), 3);
    assert_eq!(skip_chars("a\u{e9}b".as_bytes(), 7, 0), 4);
}

#[test]
fn usize_list_splits_on_commas_and_white_space() {
    assert_eq!(parse_usize_list(b"1, 2 3\t4\n5\r6\x0c7"), Ok(vec![1, 2, 3, 4, 5, 6, 7]));
    assert_eq!(parse_usize_list(b"3, 4, 3"), Ok(vec![3, 4, 3]));
    assert_eq!(parse_usize_list(b""), Ok(vec![]));
    assert_eq!(parse_usize_list(b" , ,\n"), Ok(vec![]));
    assert_eq!(parse_usize_list(b",,12,,"), Ok(vec![12]));
    assert_eq!(parse_usize_list(b"007"), Ok(vec![7]));
}

#[test]
fn usize_list_takes_signs_as_the_machine_word_does() {
    assert_eq!(parse_usize_list(b"+7"), Ok(vec![7]));
    assert_eq!(parse_usize_list(b"-0"), Ok(vec![0]));
    assert_eq!(parse_usize_list(b"+0 -0 0"), Ok(vec![0, 0, 0]));
    assert_eq!(parse_usize_list(b"-1"), Err(ListError::Negative { value: -1 }));
    assert_eq!(parse_usize_list(b"5 -12 x"), Err(ListError::Negative { value: -12 }));
    let most = isize::MAX.to_string();
    assert_eq!(parse_usize_list(most.as_bytes()), Ok(vec![isize::MAX as usize]));
    let least = isize::MIN.to_string();
    assert_eq!(parse_usize_list(least.as_bytes()), Err(ListError::Negative { value: isize::MIN }));
}

#[test]
fn usize_list_refuses_what_is_no_number() {
    assert_eq!(parse_usize_list(b"1 x 2"), Err(ListError::InvalidInteger { start: 2, end: 3 }));
    assert_eq!(parse_usize_list(b"x -1"), Err(ListError::InvalidInteger { start: 0, end: 1 }));
    assert_eq!(parse_usize_list(b"1 -"), Err(ListError::InvalidInteger { start: 2, end: 3 }));
    assert_eq!(parse_usize_list(b"+"), Err(ListError::InvalidInteger { start: 0, end: 1 }));
    assert_eq!(parse_usize_list(b"--1"), Err(ListError::InvalidInteger { start: 0, end: 3 }));
    assert_eq!(parse_usize_list(b"1.5"), Err(ListError::InvalidInteger { start: 0, end: 3 }));
    assert_eq!(parse_usize_list(b"1\x0b2"), Err(ListError::InvalidInteger { start: 0, end: 3 }));
    assert_eq!(parse_usize_list(b"12a"), Err(ListError::InvalidInteger { start: 0, end: 3 }));
    assert_eq!(
        parse_usize_list("4 \u{e9}".as_bytes()),
        Err(ListError::InvalidInteger { start: 2, end: 4 })
    );
}

#[test]
fn usize_list_refuses_what_does_not_fit_the_machine_word() {
    let over = (isize::MAX as u128 + 1).to_string();
    assert_eq!(
        parse_usize_list(over.as_bytes()),
        Err(ListError::InvalidInteger { start: 0, end: over.len() })
    );
    let under = format!("-{}", isize::MAX as u128 + 2);
    assert_eq!(
        parse_usize_list(under.as_bytes()),
        Err(ListError::InvalidInteger { start: 0, end: under.len() })
    );
    assert_eq!(
        parse_usize_list(b"99999999999999999999999999999999"),
        Err(ListError::InvalidInteger { start: 0, end: 32 })
    );
    assert_eq!(
        parse_usize_list(b"1 99999999999999999999999999999999x"),
        Err(ListError::InvalidInteger { start: 2, end: 35 })
    );
}

#[test]
fn lookup_takes_the_last_entry_with_the_name() {
    let registry = registry();
    assert_eq!(lookup(&registry, b"floor"), Some(2));
    assert_eq!(lookup(&registry, b"wall"), Some(1));
    assert_eq!(lookup(&registry, b"sky"), Some(40));
    assert_eq!(lookup(&registry, b"Floor"), None);
    assert_eq!(lookup(&registry, b""), None);
    assert_eq!(lookup(&[], b"floor"), None);
}

#[test]
fn mask_holds_the_categories_of_the_names() {
    let registry = registry();
    assert_eq!(mask_from_names(&names(&["floor", "wall"]), &registry).unwrap().bits(), 0b110);
    assert_eq!(mask_from_names(&names(&["edge", "edge"]), &registry).unwrap().bits(), 1 << 31);
    assert_eq!(mask_from_names(&names(&[]), &registry).unwrap().bits(), 0);
}

#[test]
fn mask_refuses_unknown_names_and_identifiers_out_of_range() {
    let registry = registry();
    assert_eq!(
        mask_from_names(&names(&["floor", "roof", "sky"]), &registry),
        Err(MaskError::UnknownName { index: 1 })
    );
    assert_eq!(
        mask_from_names(&names(&["floor", "sky", "roof"]), &registry),
        Err(MaskError::IdOutOfRange { id: 40 })
    );
    assert_eq!(mask_from_names(&names(&["floor"]), &[]), Err(MaskError::UnknownName { index: 0 }));
}

#[test]
fn triangle_and_quad_are_cut_into_fans() {
    assert_eq!(triangulate_faces(&[3], &[0, 1, 2], 3), Ok(vec![0, 1, 2]));
    assert_eq!(triangulate_faces(&[4], &[0, 1, 2, 3], 4), Ok(vec![0, 1, 2, 0, 2, 3]));
    assert_eq!(
        triangulate_faces(&[5], &[4, 3, 2, 1, 0], 5),
        Ok(vec![4, 3, 2, 4, 2, 1, 4, 1, 0])
    );
    assert_eq!(
        triangulate_faces(&[3, 4], &[0, 1, 2, 2, 1, 3, 4], 5),
        Ok(vec![0, 1, 2, 2, 1, 3, 2, 3, 4])
    );
}

#[test]
fn faces_with_fewer_than_three_corners_are_skipped() {
    assert_eq!(triangulate_faces(&[2, 3, 0, 1], &[9, 9, 0, 1, 2, 9], 3), Ok(vec![0, 1, 2]));
    assert_eq!(triangulate_faces(&[2, 2], &[0, 1, 0, 1], 2), Err(MeshError::NoTriangles));
    assert_eq!(triangulate_faces(&[2, 2, 2], &[], 2), Err(MeshError::NoTriangles));
    assert_eq!(triangulate_faces(&[1, 0, 2], &[0], 2), Err(MeshError::NoTriangles));
    assert_eq!(triangulate_faces(&[2, 3], &[0, 1, 2], 3), Err(MeshError::InconsistentFaces));
    assert_eq!(
        triangulate_faces(&[usize::MAX, 2, 3], &[0, 1, 2], 3),
        Err(MeshError::InconsistentFaces)
    );
}

#[test]
fn faulty_faces_are_refused() {
    assert_eq!(triangulate_faces(&[4], &[0, 1, 2], 3), Err(MeshError::InconsistentFaces));
    assert_eq!(triangulate_faces(&[3, 3], &[0, 1, 2], 3), Err(MeshError::InconsistentFaces));
    assert_eq!(triangulate_faces(&[3], &[0, 1, 3], 3), Err(MeshError::IndexOutOfRange));
    assert_eq!(triangulate_faces(&[3], &[3, 1, 2], 3), Err(MeshError::IndexOutOfRange));
    assert_eq!(triangulate_faces(&[4], &[0, 1, 2, 7], 4), Err(MeshError::IndexOutOfRange));
    assert_eq!(triangulate_faces(&[3], &[0, 0, 0], 0), Err(MeshError::IndexOutOfRange));
    assert_eq!(triangulate_faces(&[], &[], 0), Err(MeshError::NoTriangles));
    assert_eq!(triangulate_faces(&[], &[0, 1, 2], 3), Err(MeshError::NoTriangles));
}

#[test]
fn first_faulty_face_decides() {
    assert_eq!(triangulate_faces(&[3, 3], &[0, 1, 5, 0, 1], 3), Err(MeshError::IndexOutOfRange));
    assert_eq!(triangulate_faces(&[3, 4], &[0, 1, 2, 0, 9], 3), Err(MeshError::InconsistentFaces));
    assert_eq!(triangulate_faces(&[4, 3], &[0, 1, 2, 9, 0, 1], 3), Err(MeshError::IndexOutOfRange));
}

#[test]
fn meshes_are_read_one_after_another() {
    let content = ROOM.as_bytes();
    let first = next_mesh(content, 0).unwrap().unwrap();
    assert_eq!(first.name, b"floor".to_vec());
    assert_eq!(first.points, b"(0, 0, 0), (4, 0, 0), (4, 0, 3), (0, 0, 3)".to_vec());
    assert_eq!(first.face_vertex_counts, b"4".to_vec());
    assert_eq!(first.face_vertex_indices, b"0, 1, 2, 3".to_vec());
    assert_eq!(first.regions_type_mask, Some(br#""floor", "rug""#.to_vec()));
    assert_eq!(content[first.end - 1], b'}');
    assert_eq!(parse_usize_list(&first.face_vertex_counts), Ok(vec![4]));
    assert_eq!(parse_usize_list(&first.face_vertex_indices), Ok(vec![0, 1, 2, 3]));
    assert_eq!(parse_string_list(first.regions_type_mask.as_ref().unwrap()), names(&["floor", "rug"]));

    let second = next_mesh(content, first.end).unwrap().unwrap();
    assert_eq!(second.name, b"wall_north".to_vec());
    assert_eq!(second.points, b"(0, 0, 0), (4, 0, 0), (4, 2, 0)".to_vec());
    assert_eq!(second.face_vertex_counts, b"3".to_vec());
    assert_eq!(second.face_vertex_indices, b"0, 1, 2".to_vec());
    assert_eq!(second.regions_type_mask, None);
    assert!(second.end > first.end);

    assert!(next_mesh(content, second.end).unwrap().is_none());
    assert!(next_mesh(content, content.len()).unwrap().is_none());
    assert!(next_mesh(content, content.len() + 5).unwrap().is_none());
    assert!(next_mesh(b"", 0).unwrap().is_none());
}

#[test]
fn malformed_mesh_declarations_are_refused() {
    assert_eq!(next_mesh(br#"def Mesh "floor"#, 0).unwrap_err(), UsdaError::MalformedDeclaration);
    assert_eq!(
        next_mesh(br#"def Mesh "floor" points"#, 0).unwrap_err(),
        UsdaError::NoOpeningBrace { name_start: 10, name_end: 15 }
    );
    assert_eq!(
        next_mesh(br#"def Mesh "floor" { { }"#, 0).unwrap_err(),
        UsdaError::UnclosedBrace { name_start: 10, name_end: 15 }
    );
    assert_eq!(
        next_mesh(br#"xx def Mesh "m" { int[] faceVertexCounts = [3] }"#, 0).unwrap_err(),
        UsdaError::MissingPoints { name_start: 13, name_end: 14 }
    );
    assert_eq!(
        next_mesh(br#"def Mesh "m" { point3f[] points = [(0,0,0)] }"#, 0).unwrap_err(),
        UsdaError::MissingFaceVertexCounts { name_start: 10, name_end: 11 }
    );
    assert_eq!(
        next_mesh(
            br#"def Mesh "m" { point3f[] points = [(0,0,0)] int[] faceVertexCounts = [3] }"#,
            0
        )
        .unwrap_err(),
        UsdaError::MissingFaceVertexIndices { name_start: 10, name_end: 11 }
    );
}

#[test]
fn lists_outside_the_braces_of_a_mesh_do_not_count() {
    let text = br#"def Mesh "m" { int[] faceVertexCounts = [3] } point3f[] points = [(0,0,0)]"#;
    assert_eq!(
        next_mesh(text, 0).unwrap_err(),
        UsdaError::MissingPoints { name_start: 10, name_end: 11 }
    );
}

#[test]
fn first_transform_gives_its_name() {
    assert_eq!(extract_first_xform_name(ROOM.as_bytes()), Some(b"room".to_vec()));
    assert_eq!(extract_first_xform_name(b"def Xform \"chair\" (\n)"), Some(b"chair".to_vec()));
    assert_eq!(extract_first_xform_name(b"def Xform \"a\"\r\ndef Xform \"b\"\r\n"), Some(b"a".to_vec()));
    assert_eq!(extract_first_xform_name(b"def Xform \"\" {"), Some(Vec::new()));
    assert_eq!(extract_first_xform_name(b"def Xform kind = \"x\" \"y\""), Some(b"x".to_vec()));
}

#[test]
fn layer_info_is_not_the_first_transform() {
    let text = b"def Xform \"HoudiniLayerInfo\"\n{\n}\n  def Xform \"chair0\"\n{\n}\n";
    assert_eq!(extract_first_xform_name(text), Some(b"chair0".to_vec()));
    assert_eq!(extract_first_xform_name(b"def Xform \"HoudiniLayerInfo\"\n"), None);
    assert_eq!(
        extract_first_xform_name(b"def Xform \"HoudiniLayerInfo2\"\n"),
        Some(b"HoudiniLayerInfo2".to_vec())
    );
}

#[test]
fn transform_is_declared_at_the_start_of_a_line() {
    assert_eq!(extract_first_xform_name(b"x def Xform \"a\"\n"), None);
    assert_eq!(extract_first_xform_name(b"def Xform\"a\"\n"), None);
    assert_eq!(extract_first_xform_name(b"def  Xform \"a\"\n"), None);
    assert_eq!(extract_first_xform_name(b"def Mesh \"a\"\ndef Xform \"b\""), Some(b"b".to_vec()));
    assert_eq!(extract_first_xform_name(b""), None);
    assert_eq!(extract_first_xform_name(b"\n\n\n"), None);
    assert_eq!(
        extract_first_xform_name("\t \u{a0}\u{3000}\u{2003}\u{85}\u{1680}\u{205f}def Xform \"a\"".as_bytes()),
        Some(b"a".to_vec())
    );
    assert_eq!(extract_first_xform_name("\u{200b}def Xform \"a\"".as_bytes()), None);
    assert_eq!(extract_first_xform_name(b"\x1fdef Xform \"a\""), None);
    assert_eq!(extract_first_xform_name(b"\x0b\x0c\rdef Xform \"a\""), Some(b"a".to_vec()));
}

#[test]
fn transform_without_a_closed_name_ends_the_search() {
    assert_eq!(extract_first_xform_name(b"def Xform \"abc\ndef Xform \"b\"\n"), None);
    assert_eq!(extract_first_xform_name(b"def Xform abc\ndef Xform \"b\"\n"), None);
    assert_eq!(extract_first_xform_name(b"def Xform \n\"abc\"\n"), None);
    assert_eq!(extract_first_xform_name(b"def Xform "), None);
}

#[test]
fn white_space_is_measured_in_bytes() {
    assert_eq!(space_at(b" x", 0), 1);
    assert_eq!(space_at(b" x", 1), 0);
    assert_eq!(space_at(b" x", 2), 0);
    assert_eq!(space_at("\u{a0}".as_bytes(), 0), 2);
    assert_eq!(space_at("\u{a0}".as_bytes(), 1), 0);
    assert_eq!(space_at("\u{2028}".as_bytes(), 0), 3);
    assert_eq!(space_at("\u{2029}".as_bytes(), 0), 3);
    assert_eq!(space_at("\u{202f}".as_bytes(), 0), 3);
    assert_eq!(space_at("\u{2000}".as_bytes(), 0), 3);
    assert_eq!(space_at("\u{200a}".as_bytes(), 0), 3);
    assert_eq!(space_at("\u{200b}".as_bytes(), 0), 0);
    assert_eq!(space_at(&[0xc2], 0), 0);
    assert_eq!(space_at(&[0xe2, 0x80], 0), 0);
}

#[test]
fn white_space_agrees_with_the_standard_library() {
    for code in 0..0x3100u32 {
        if let Some(character) = char::from_u32(code) {
            let mut buffer = [0u8; 4];
            let encoded = character.encode_utf8(&mut buffer).as_bytes();
            let expected = if character.is_whitespace() { encoded.len() } else { 0 };
            assert_eq!(space_at(encoded, 0), expected, "U+{code:04X}");
        }
    }
}
