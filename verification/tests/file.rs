use solang_sema::diagnostics::{Diagnostics, Loc};
use solang_sema::file::{File, PathDisplay};
use solang_sema::namespace::{Namespace, Target};

fn namespace(files: Vec<File>) -> Namespace {
    Namespace {
        files,
        target: Target::EVM,
        address_length: 20,
        value_length: 16,
        enums: vec![],
        structs: vec![],
        user_types: vec![],
        functions: vec![],
        contracts: vec![],
        function_symbols: vec![],
        diagnostics: Diagnostics::new(),
    }
}

const SOURCE: &str = "contract c {\n  int x;\n}\n";

#[test]
fn line_starts_follow_newlines() {
    let file = File::new("src/dir/test.sol".to_string(), SOURCE, 3, Some(7));
    assert_eq!(file.line_starts, vec![13, 22, 24]);
    assert_eq!(file.cache_no, Some(3));
    assert_eq!(file.import_no, Some(7));
    assert_eq!(file.path, "src/dir/test.sol");
}

#[test]
fn line_starts_count_bytes() {
    // 'é' takes two bytes
    let file = File::new("a.sol".to_string(), "é\nb\n", 0, None);
    assert_eq!(file.line_starts, vec![3, 5]);
}

#[test]
fn offsets_to_lines_and_columns() {
    let file = File::new("test.sol".to_string(), SOURCE, 0, None);
    assert_eq!(file.offset_to_line_column(0), (0, 0));
    assert_eq!(file.offset_to_line_column(12), (0, 12));
    assert_eq!(file.offset_to_line_column(13), (1, 0));
    assert_eq!(file.offset_to_line_column(17), (1, 4));
    assert_eq!(file.offset_to_line_column(23), (2, 1));
    assert_eq!(file.offset_to_line_column(100), (3, 76));
}

#[test]
fn lines_and_columns_to_offsets() {
    let file = File::new("test.sol".to_string(), SOURCE, 0, None);
    assert_eq!(file.get_offset(0, 5), Some(5));
    assert_eq!(file.get_offset(1, 4), Some(17));
    assert_eq!(file.get_offset(3, 0), Some(24));
    assert_eq!(file.get_offset(4, 0), None);
}

#[test]
fn offset_line_column_roundtrip() {
    let file = File::new("test.sol".to_string(), SOURCE, 0, None);
    for offset in 0..30 {
        let (line, column) = file.offset_to_line_column(offset);
        assert_eq!(file.get_offset(line, column), Some(offset));
    }
}

#[test]
fn line_start_is_column_zero() {
    let file = File::new("test.sol".to_string(), SOURCE, 0, None);
    for (line, start) in file.line_starts.clone().into_iter().enumerate() {
        assert_eq!(file.offset_to_line_column(start), (line + 1, 0));
    }
}

#[test]
fn file_names() {
    assert_eq!(File::new("src/dir/test.sol".to_string(), "", 0, None).file_name(), "test.sol");
    assert_eq!(File::new("test.sol".to_string(), "", 0, None).file_name(), "test.sol");
}

#[test]
fn positions_as_text() {
    let file = File::new("src/test.sol".to_string(), SOURCE, 0, None);
    assert_eq!(file.loc_to_string(PathDisplay::NoPath, 17, 17), "2:5");
    assert_eq!(file.loc_to_string(PathDisplay::Filename, 15, 20), "test.sol:2:3-8");
    assert_eq!(file.loc_to_string(PathDisplay::FullPath, 0, 23), "src/test.sol:1:1-3:2");
}

#[test]
fn namespace_positions() {
    let ns = namespace(vec![File::new("src/test.sol".to_string(), SOURCE, 0, None)]);
    assert_eq!(ns.loc_to_string(PathDisplay::FullPath, &Loc::File(0, 13, 14)), "src/test.sol:2:1-2");
    assert_eq!(ns.loc_to_string(PathDisplay::FullPath, &Loc::Builtin), "builtin");
    assert_eq!(ns.loc_to_string(PathDisplay::FullPath, &Loc::Codegen), "codegen");
    assert_eq!(ns.loc_to_string(PathDisplay::FullPath, &Loc::Implicit), "implicit");
    assert_eq!(ns.loc_to_string(PathDisplay::FullPath, &Loc::CommandLine), "commandline");
}

#[test]
fn top_file_is_first_in_cache() {
    let mut first = File::new("a.sol".to_string(), "", 0, None);
    first.cache_no = None;
    let second = File::new("b.sol".to_string(), "", 1, None);
    let third = File::new("c.sol".to_string(), "", 2, None);
    let ns = namespace(vec![first, second, third]);
    assert_eq!(ns.top_file_no(), 1);
}
