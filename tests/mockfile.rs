use file_endec::mockfile::generate_test_file_content_for_test;

#[test]
fn generate() {
    let data = generate_test_file_content_for_test(15_001);
    assert_eq!(15_001, data.len());
    assert!(data.contains(&0));
    assert!(data.contains(&127));
    assert!(data.contains(&255));
}

#[test]
fn generate_starts_as_fibonacci() {
    assert_eq!(generate_test_file_content_for_test(8), vec![2, 3, 5, 8, 13, 21, 34, 55]);
    assert_eq!(generate_test_file_content_for_test(0), Vec::<u8>::new());
    assert_eq!(generate_test_file_content_for_test(13)[11], (377 % 256) as u8);
}
