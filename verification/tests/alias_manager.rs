use pk::alias::{deserialize_line, serialize_line, AliasError, AliasManager, ALIAS_FILE_NAME};

fn lines(items: &[&str]) -> Vec<String> {
    items.iter().map(|s| s.to_string()).collect()
}

#[test]
fn test_alias_manager() {
    let test_file_path = "/tmp/.pk_alias_test".to_string();
    let alias_manager = AliasManager::with_path(test_file_path.clone());
    assert_eq!(alias_manager.file_path(), test_file_path);
    assert_eq!(alias_manager.tmp_path(), "/tmp/.pk_alias_test.tmp");

    let alias = "1234";
    let path = "abcd";
    let mut file: Vec<String> = Vec::new();
    file.push(AliasManager::create(alias, path));
    assert_eq!(file, lines(&["1234:abcd"]));

    let alias2 = "4321";
    let path2 = "dcba";
    file.push(AliasManager::create(alias2, path2));
    assert_eq!(file, lines(&["1234:abcd", "4321:dcba"]));

    let file = AliasManager::rename(&file, "1234", "9876").unwrap();
    assert_eq!(file, lines(&["9876:abcd", "4321:dcba"]));

    let file = AliasManager::update(&file, "4321", "zyxw").unwrap();
    assert_eq!(file, lines(&["9876:abcd", "4321:zyxw"]));

    let file = AliasManager::delete(&file, "9876").unwrap();
    assert_eq!(file, lines(&["4321:zyxw"]));

    let (entries, status) = AliasManager::show_list(&file);
    assert_eq!(entries, vec![("4321".to_string(), "zyxw".to_string())]);
    assert_eq!(status, Ok(()));
}

#[test]
fn line_is_split_at_first_separator() {
    assert_eq!(deserialize_line("a:b"), Ok(("a", "b")));
    assert_eq!(deserialize_line("a:/x:y"), Ok(("a", "/x:y")));
    assert_eq!(deserialize_line(":p"), Ok(("", "p")));
    assert_eq!(deserialize_line("a:"), Ok(("a", "")));
    assert_eq!(deserialize_line("no separator"), Err(AliasError::InvalidFormat));
    assert_eq!(deserialize_line(""), Err(AliasError::InvalidFormat));
}

#[test]
fn line_round_trip() {
    let line = serialize_line("work", "/home/me/run.sh");
    assert_eq!(line, "work:/home/me/run.sh");
    assert_eq!(deserialize_line(&line), Ok(("work", "/home/me/run.sh")));
    let line = serialize_line("a:b", "c");
    assert_eq!(deserialize_line(&line), Ok(("a", "b:c")));
    assert_eq!(serialize_line("é", "ü"), "é:ü");
}

#[test]
fn with_path_derives_temporary_file() {
    let m = AliasManager::with_path("/tmp/aliases.txt".to_string());
    assert_eq!(m.file_path(), "/tmp/aliases.txt");
    assert_eq!(m.tmp_path(), "/tmp/aliases.tmp");
    let m = AliasManager::with_path("/home/u/.pk_alias".to_string());
    assert_eq!(m.tmp_path(), "/home/u/.pk_alias.tmp");
}

#[test]
fn new_places_file_in_home_directory() {
    let m = AliasManager::new(Some("/home/u".to_string())).ok().unwrap();
    assert_eq!(m.file_path(), "/home/u/.pk_alias");
    assert_eq!(m.tmp_path(), "/home/u/.pk_alias.tmp");
    assert_eq!(ALIAS_FILE_NAME, ".pk_alias");
    assert!(matches!(AliasManager::new(None), Err(AliasError::NoHomeDirectory)));
}

#[test]
fn rename_touches_every_matching_line() {
    let file = lines(&["a:1", "b:2", "a:3"]);
    assert_eq!(AliasManager::rename(&file, "a", "z"), Ok(lines(&["z:1", "b:2", "z:3"])));
    assert_eq!(AliasManager::rename(&file, "q", "z"), Ok(file.clone()));
}

#[test]
fn update_touches_every_matching_line() {
    let file = lines(&["a:1", "b:2", "a:3"]);
    assert_eq!(AliasManager::update(&file, "a", "/p"), Ok(lines(&["a:/p", "b:2", "a:/p"])));
}

#[test]
fn delete_drops_every_matching_line() {
    let file = lines(&["a:1", "b:2", "a:3"]);
    assert_eq!(AliasManager::delete(&file, "a"), Ok(lines(&["b:2"])));
    assert_eq!(AliasManager::delete(&Vec::new(), "a"), Ok(Vec::new()));
}

#[test]
fn edits_refuse_malformed_file() {
    let file = lines(&["a:1", "broken", "b:2"]);
    assert_eq!(AliasManager::rename(&file, "a", "z"), Err(AliasError::InvalidFormat));
    assert_eq!(AliasManager::update(&file, "a", "x"), Err(AliasError::InvalidFormat));
    assert_eq!(AliasManager::delete(&file, "a"), Err(AliasError::InvalidFormat));
}

#[test]
fn lookup_stops_at_first_match_or_malformed_line() {
    let file = lines(&["a:1", "broken", "b:2", "a:9"]);
    assert_eq!(AliasManager::has_alias(&file, "a"), Ok(true));
    assert_eq!(AliasManager::has_alias(&file, "b"), Err(AliasError::InvalidFormat));
    assert_eq!(AliasManager::get_path_by_alias(&file, "a"), Ok("1".to_string()));
    assert_eq!(AliasManager::get_path_by_alias(&file, "b"), Err(AliasError::InvalidFormat));
    let good = lines(&["a:1", "b:2", "a:9"]);
    assert_eq!(AliasManager::has_alias(&good, "c"), Ok(false));
    assert_eq!(
        AliasManager::get_path_by_alias(&good, "c"),
        Err(AliasError::NotFound("c".to_string()))
    );
    assert_eq!(AliasManager::get_path_by_alias(&good, "b"), Ok("2".to_string()));
}

#[test]
fn show_list_stops_at_malformed_line() {
    let file = lines(&["a:1", "b:2", "broken", "c:3"]);
    let (entries, status) = AliasManager::show_list(&file);
    assert_eq!(
        entries,
        vec![("a".to_string(), "1".to_string()), ("b".to_string(), "2".to_string())]
    );
    assert_eq!(status, Err(AliasError::InvalidFormat));
    let (entries, status) = AliasManager::show_list(&Vec::new());
    assert!(entries.is_empty());
    assert_eq!(status, Ok(()));
}

#[test]
fn entry_by_number() {
    let file = lines(&["a:1", "b:2", "broken"]);
    assert_eq!(
        AliasManager::get_alias_and_path_by_num(&file, "2"),
        Ok(("b".to_string(), "2".to_string()))
    );
    assert_eq!(
        AliasManager::get_alias_and_path_by_num(&file, "3"),
        Err(AliasError::InvalidFormat)
    );
    assert_eq!(
        AliasManager::get_alias_and_path_by_num(&file, "4"),
        Err(AliasError::NoSuchEntry("4".to_string()))
    );
    assert_eq!(
        AliasManager::get_alias_and_path_by_num(&file, "0"),
        Err(AliasError::NoSuchEntry("0".to_string()))
    );
    assert_eq!(
        AliasManager::get_alias_and_path_by_num(&file, "x"),
        Err(AliasError::NoSuchEntry("x".to_string()))
    );
}

#[test]
fn removing_all_files_reports_first_failure() {
    let ok: Result<(), &str> = Ok(());
    assert_eq!(AliasManager::rmeove_all_alias_files(ok, Ok(())), Ok(()));
    assert_eq!(AliasManager::rmeove_all_alias_files(Err("first"), Err("second")), Err("first"));
    assert_eq!(AliasManager::rmeove_all_alias_files(Ok(()), Err("second")), Err("second"));
    assert_eq!(AliasManager::rmeove_all_alias_files(Err("first"), Ok(())), Err("first"));
}

#[test]
fn created_alias_is_found() {
    let mut file = lines(&["x:1"]);
    file.push(AliasManager::create("new", "/bin/run"));
    assert_eq!(AliasManager::get_path_by_alias(&file, "new"), Ok("/bin/run".to_string()));
    file.push(AliasManager::create("x", "/other"));
    assert_eq!(AliasManager::get_path_by_alias(&file, "x"), Ok("1".to_string()));
}

#[test]
fn deleted_alias_is_gone_and_others_stay() {
    let file = lines(&["a:1", "b:2", "a:3"]);
    let after = AliasManager::delete(&file, "a").unwrap();
    assert_eq!(AliasManager::has_alias(&after, "a"), Ok(false));
    assert_eq!(AliasManager::get_path_by_alias(&after, "b"), Ok("2".to_string()));
}

#[test]
fn updated_alias_has_new_path() {
    let file = lines(&["a:1", "b:2"]);
    let after = AliasManager::update(&file, "a", "/new").unwrap();
    assert_eq!(AliasManager::get_path_by_alias(&after, "a"), Ok("/new".to_string()));
    assert_eq!(AliasManager::get_path_by_alias(&after, "b"), Ok("2".to_string()));
}

#[test]
fn renamed_alias_moves_its_path() {
    let file = lines(&["a:1", "b:2"]);
    let after = AliasManager::rename(&file, "a", "c").unwrap();
    assert_eq!(AliasManager::has_alias(&after, "a"), Ok(false));
    assert_eq!(AliasManager::get_path_by_alias(&after, "c"), Ok("1".to_string()));
    assert_eq!(AliasManager::get_path_by_alias(&after, "b"), Ok("2".to_string()));
}

#[test]
fn renamed_alias_found_when_new_name_existed() {
    let file = lines(&["b:2", "a:1"]);
    let after = AliasManager::rename(&file, "a", "b").unwrap();
    assert_eq!(after, lines(&["b:2", "b:1"]));
    assert_eq!(AliasManager::has_alias(&after, "b"), Ok(true));
    assert_eq!(AliasManager::get_path_by_alias(&after, "b"), Ok("2".to_string()));
}
