use deploycli::location::make_cache_key;

#[test]
fn plain_names_and_identifiers_are_kept() {
    assert_eq!(make_cache_key("demo", "1234"), "demo-1234");
    assert_eq!(make_cache_key("", ""), "-");
}

#[test]
fn special_characters_are_written_with_an_underscore() {
    assert_eq!(make_cache_key("my_task", "x"), "my__task-x");
    assert_eq!(make_cache_key("a-b", "c"), "a_db-c");
    assert_eq!(make_cache_key("a", "b-c"), "a-b_dc");
    assert_eq!(make_cache_key("v1.2", "x"), "v1_p2-x");
    assert_eq!(make_cache_key("a/b\\c:d\0e", "x"), "a_sb_bc_cd_0e-x");
    assert_eq!(
        make_cache_key("demo", "6f1b0c1e-7f0a-4c59-9d0e-2f1d3b5a7c9e"),
        "demo-6f1b0c1e_d7f0a_d4c59_d9d0e_d2f1d3b5a7c9e"
    );
}

#[test]
fn different_tasks_have_different_keys() {
    let pairs = [("a-b", "c"), ("a", "b-c"), ("a_d", "b"), ("a-", "b"), ("a", "-b"), ("a_", "db")];
    for (i, (n1, u1)) in pairs.iter().enumerate() {
        for (j, (n2, u2)) in pairs.iter().enumerate() {
            assert_eq!(make_cache_key(n1, u1) == make_cache_key(n2, u2), i == j);
        }
    }
}
