use file_endec::shred::{
    generate_name, overwrite_constant, overwrite_passes, overwrite_steps, ArgumentError,
    OverwritePass, ShredArguments, ShredConfig,
};
use file_endec::strategy::Verbosity;
use sha2::Digest;

#[test]
fn overwrite_overwrite_long() {
    let mut mock_file = vec![0u8; 65_536 + 1];
    overwrite_constant(&mut mock_file, 65_536 + 1, b'm');
    let data = &mock_file;
    assert!(data.starts_with(b"mmmmmm"));
    assert!(data.ends_with(b"mmmmmm"));
    assert_eq!(data.len(), 65_536 + 512);
}

#[test]
fn overwrite_overwrite_fixed() {
    let mut mock_file = b"hello world".to_vec();
    overwrite_constant(&mut mock_file, 11, 85);
    let data = &mock_file;
    assert!(!data.starts_with(b"hello world"));
    assert!(data.starts_with(b"UUUUUUUUUUUUUUUUUUUUUUUUUUUUUUUU"));
    assert_eq!(data.len(), 512);
}

#[test]
fn overwrite_overwrite_random() {
    let initial = b"hello world this is an unlikely message that shouldn't happen by chance!";
    let mut mock_file = initial.to_vec();
    overwrite_constant(&mut mock_file, 11, 85);
    let data = &mock_file;
    assert!(!data.starts_with(initial));
    assert_eq!(data.len(), 512);
}

#[test]
fn shred_overwrite_long() {
    let mut mock_file = vec![0u8; 65_536 + 1];
    overwrite_constant(&mut mock_file, 65_536 + 1, 'm' as u8);
    let data = &mock_file;
    assert!(data.starts_with(b"mmmmmm"));
    assert!(data.ends_with(b"mmmmmm"));
    assert_eq!(data.len(), 65_536 + 512);
}

#[test]
fn shred_overwrite_fixed() {
    let mut mock_file = b"hello world".to_vec();
    overwrite_constant(&mut mock_file, 11, 85);
    let data = &mock_file;
    assert!(!data.starts_with(b"hello world"));
    assert!(data.starts_with(b"UUUUUUUUUUUUUUUUUUUUUUUUUUUUUUUU"));
    assert_eq!(data.len(), 512);
}

#[test]
fn shred_overwrite_random() {
    let initial = b"hello world this is an unlikely message that shouldn't happen by chance!";
    let mut mock_file = initial.to_vec();
    overwrite_constant(&mut mock_file, 11, 85);
    let data = &mock_file;
    assert!(!data.starts_with(initial));
    assert_eq!(data.len(), 512);
}

#[test]
fn overwrite_keeps_tail_beyond_blocks() {
    let mut mock_file = vec![7u8; 1_000];
    overwrite_constant(&mut mock_file, 100, 1);
    assert_eq!(mock_file.len(), 1_000);
    assert!(mock_file[..512].iter().all(|b| *b == 1));
    assert!(mock_file[512..].iter().all(|b| *b == 7));
    let mut empty: Vec<u8> = vec![];
    overwrite_constant(&mut empty, 0, 1);
    assert!(empty.is_empty());
}

#[test]
fn overwrite_step_counts() {
    assert_eq!(overwrite_steps(0), 0);
    assert_eq!(overwrite_steps(1), 1);
    assert_eq!(overwrite_steps(512), 1);
    assert_eq!(overwrite_steps(513), 2);
    assert_eq!(overwrite_steps(u64::MAX), u64::MAX / 512 + 1);
}

#[test]
fn overwrite_pass_patterns() {
    assert_eq!(overwrite_passes(0), vec![]);
    let random = OverwritePass::Random;
    assert_eq!(overwrite_passes(1), vec![random]);
    assert_eq!(overwrite_passes(3), vec![OverwritePass::Constant(0), OverwritePass::Constant(255), random]);
    assert_eq!(
        overwrite_passes(7),
        vec![
            OverwritePass::Constant(0),
            OverwritePass::Constant(255),
            OverwritePass::Constant(85),
            OverwritePass::Constant(170),
            random,
            random,
            random,
        ]
    );
}

#[test]
fn first_name() {
    let name = generate_name(0);
    assert_eq!(name, "0");
}

#[test]
fn last_single_letter_name() {
    let name = generate_name(35);
    assert_eq!(name, "z");
}

#[test]
fn two_letter_name() {
    let name = generate_name(36);
    assert_eq!(name, "00");
}

#[test]
fn three_letter_name() {
    let name = generate_name(36 * 36);
    assert_eq!(name, "000");
}

#[test]
fn four_letter_name() {
    let name = generate_name(36 * 36 * 36);
    assert_eq!(name, "0000");
}

#[test]
fn names_in_between() {
    assert_eq!(generate_name(10), "a");
    assert_eq!(generate_name(37), "01");
    assert_eq!(generate_name(36 * 36 - 1), "yz");
    assert_eq!(generate_name(u64::MAX).len(), 13);
}

fn arguments(files: &[&str]) -> ShredArguments {
    ShredArguments {
        files: files.iter().map(|f| f.to_string()).collect(),
        no_confirm: false,
        debug: false,
        quiet: false,
        keep: false,
        overwrite_count: 10,
        rename_count: None,
    }
}

#[test]
fn main_parse_args_minimal() {
    let args = arguments(&["file.txt"]);
    let config = args.convert().unwrap();
    assert!(config.files.contains(&"file.txt".to_string()));
    assert_eq!(1, config.files.len());
    assert_eq!(config.verbosity, Verbosity::Normal);
    assert!(!config.keep_files);
    assert_eq!(config.overwrite_count, 10);
    assert_eq!(config.rename_count, 10);
}

#[test]
fn main_parse_args_long() {
    let mut args = arguments(&["file.txt", "another_file.txt", "there_are_three_files"]);
    args.quiet = true;
    args.keep = true;
    args.overwrite_count = 7;
    let config = args.convert().unwrap();
    assert!(config.files.contains(&"file.txt".to_string()));
    assert!(config.files.contains(&"another_file.txt".to_string()));
    assert!(config.files.contains(&"there_are_three_files".to_string()));
    assert_eq!(3, config.files.len());
    assert_eq!(config.verbosity, Verbosity::Quiet);
    assert!(config.keep_files);
    assert_eq!(config.overwrite_count, 7);
    assert_eq!(config.rename_count, 10);
}

#[test]
fn shred_argument_errors() {
    let mut both = arguments(&["a"]);
    both.quiet = true;
    both.debug = true;
    assert!(matches!(both.convert(), Err(ArgumentError::QuietAndDebug)));
    let mut zero = arguments(&["a"]);
    zero.overwrite_count = 0;
    assert!(matches!(zero.convert(), Err(ArgumentError::ZeroOverwriteCount)));
    let mut renamed = arguments(&["a"]);
    renamed.rename_count = Some(3);
    renamed.no_confirm = true;
    let config = renamed.convert().unwrap();
    assert_eq!(config.rename_count, 3);
    assert!(!config.confirmation_prompt);
    assert!(config.progress_bar);
}

#[test]
fn shred_config_constructors() {
    let c = ShredConfig::non_interactive(vec!["x".to_string()], Verbosity::Debug, true, 6, 3);
    assert!(!c.confirmation_prompt && !c.progress_bar && c.keep_files);
    assert_eq!((c.overwrite_count, c.rename_count), (6, 3));
    let c = ShredConfig::interactive(vec![], true, Verbosity::Quiet, false, 2, 1);
    assert!(c.confirmation_prompt && !c.progress_bar);
    let c = ShredConfig::interactive(vec![], false, Verbosity::Normal, false, 2, 1);
    assert!(c.progress_bar);
    let c = ShredConfig::new(vec!["y".to_string()], Verbosity::Normal, false);
    assert_eq!((c.overwrite_count, c.rename_count), (10, 10));
}

#[test]
fn temporary_names_follow_digest() {
    let name = "/tmp/some dir/original.file";
    let mut input = name.as_bytes().to_vec();
    input.extend_from_slice(&7u32.to_le_bytes());
    let text = data_encoding::BASE64URL_NOPAD.encode(&sha2::Sha256::digest(&input));
    assert_eq!(file_endec::shred::temporary_name(name, 7), format!("tmp{}", &text[..20]));
    assert_ne!(file_endec::shred::temporary_name(name, 7), file_endec::shred::temporary_name(name, 8));
    assert_eq!(file_endec::shred::temporary_name(name, 0).len(), 23);
}
