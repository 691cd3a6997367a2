use messy_folder_reorganizer_ai::fingerprint::format_file_name;
use messy_folder_reorganizer_ai::fingerprint::format_file_names;

#[test]
fn formats_compound_name_with_extension() {
    assert_eq!(format_file_name("my-file_name.txt"), "my file name.txt");
}

#[test]
fn formats_name_without_extension_to_duplicated_form() {
    assert_eq!(format_file_name("readme"), "readme.readme");
}

#[test]
fn formats_name_without_extension_replaces_only_name_part() {
    assert_eq!(format_file_name("my_file"), "my file.my_file");
}

#[test]
fn splits_at_last_dot_only() {
    assert_eq!(format_file_name("archive.tar.gz"), "archive.tar.gz");
    assert_eq!(format_file_name("a-b.c_d.log"), "a b.c d.log");
}

#[test]
fn keeps_extension_part_verbatim() {
    assert_eq!(format_file_name("notes.my-ext"), "notes.my-ext");
}

#[test]
fn formats_hidden_file_with_empty_name_part() {
    assert_eq!(format_file_name(".txt"), ".txt");
}

#[test]
fn formats_empty_name() {
    assert_eq!(format_file_name(""), ".");
}

#[test]
fn formats_batch_in_order() {
    let a = String::from("a-b.txt");
    let b = String::from("c");
    let names = vec![&a, &b];
    let formatted = format_file_names(&names);
    assert_eq!(formatted, vec!["a b.txt".to_string(), "c.c".to_string()]);
}
