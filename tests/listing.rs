use file_rpc::listing::list_meta;
use file_rpc::types::{FileMeta, FileType};

fn meta(name: &str, file_type: FileType) -> FileMeta {
    FileMeta { id: format!("id-{name}"), name: name.to_string(), file_type }
}

fn names(v: &[FileMeta]) -> Vec<&str> {
    v.iter().map(|m| m.name.as_str()).collect()
}

#[test]
fn list_puts_directories_first_each_sorted_by_name() {
    let entries = vec![meta("b.txt", FileType::File), meta("a", FileType::Dir), meta("A.txt", FileType::File)];
    let r = list_meta(entries);
    assert_eq!(names(&r), vec!["a", "A.txt", "b.txt"]);
    assert_eq!(r[0].file_type, FileType::Dir);
}

#[test]
fn list_sorts_by_character_order_and_keeps_equal_names_in_order() {
    let mut first = meta("same", FileType::File);
    first.id = "first".to_string();
    let mut second = meta("same", FileType::File);
    second.id = "second".to_string();
    let entries = vec![
        meta("zeta", FileType::Dir),
        first,
        meta("ab", FileType::File),
        meta("Beta", FileType::Dir),
        second,
        meta("a", FileType::File),
        meta("éclair", FileType::File),
    ];
    let r = list_meta(entries);
    assert_eq!(names(&r), vec!["Beta", "zeta", "a", "ab", "same", "same", "éclair"]);
    assert_eq!(r[4].id, "first");
    assert_eq!(r[5].id, "second");
}

#[test]
fn list_of_empty_directory_is_empty() {
    assert!(list_meta(vec![]).is_empty());
}
