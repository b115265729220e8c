use arx::cmd_utils::{compression_arg_parser, Compression, ConcatMode, InvalidCompression};
use arx::create::ConcatMode as Mode;

fn level_error(s: &str) -> String {
    match compression_arg_parser(s) {
        Err(InvalidCompression::Level(m)) => m,
        _ => panic!("{s} has an invalid level"),
    }
}

#[test]
fn algorithms_without_level_take_the_default() {
    assert!(matches!(compression_arg_parser("none"), Ok(Compression::Uncompressed)));
    assert!(matches!(compression_arg_parser("lz4"), Ok(Compression::Lz4(3))));
    assert!(matches!(compression_arg_parser("lzma"), Ok(Compression::Lzma(9))));
    assert!(matches!(compression_arg_parser("zstd"), Ok(Compression::Zstd(5))));
}

#[test]
fn algorithm_names_ignore_case() {
    assert!(matches!(compression_arg_parser("ZSTD=3"), Ok(Compression::Zstd(3))));
    assert!(matches!(compression_arg_parser("Lz4=15"), Ok(Compression::Lz4(15))));
    assert!(matches!(compression_arg_parser("NONE=whatever"), Ok(Compression::Uncompressed)));
}

#[test]
fn levels_are_parsed_in_range() {
    assert!(matches!(compression_arg_parser("zstd=-22"), Ok(Compression::Zstd(-22))));
    assert!(matches!(compression_arg_parser("lzma=0"), Ok(Compression::Lzma(0))));
    assert_eq!(level_error("lz4=16"), "number too large to fit in target type");
    assert_eq!(level_error("zstd=-23"), "number too small to fit in target type");
    assert_eq!(level_error("lzma=x"), "invalid digit found in string");
    assert_eq!(level_error("zstd="), "cannot parse integer from empty string");
    assert_eq!(level_error("zstd=3=4"), "invalid digit found in string");
}

#[test]
fn unknown_algorithm_is_refused_lower_case() {
    match compression_arg_parser("GZip=3") {
        Err(InvalidCompression::Algorithm(a)) => assert_eq!(a, "gzip"),
        _ => panic!("gzip is unknown"),
    }
}

#[test]
fn concat_mode_from_flags() {
    assert_eq!(Mode::from_flags(None), Mode::OneFile);
    let f = |one, two, multiple| Some(ConcatMode { one_file: one, two_files: two, multiple_files: multiple });
    assert_eq!(Mode::from_flags(f(true, false, false)), Mode::OneFile);
    assert_eq!(Mode::from_flags(f(false, true, false)), Mode::TwoFiles);
    assert_eq!(Mode::from_flags(f(false, false, true)), Mode::NoConcat);
}

#[test]
fn levels_follow_the_integer_syntax() {
    assert!(matches!(compression_arg_parser("lz4=+7"), Ok(Compression::Lz4(7))));
    assert!(matches!(compression_arg_parser("lzma=007"), Ok(Compression::Lzma(7))));
    assert!(matches!(compression_arg_parser("zstd=+22"), Ok(Compression::Zstd(22))));
    assert_eq!(level_error("lz4="), "cannot parse integer from empty string");
    assert_eq!(level_error("zstd=-23"), "number too small to fit in target type");
    assert_eq!(level_error("zstd=99999999999"), "number too large to fit in target type");
    assert_eq!(level_error("lz4=99999999999"), "number too large to fit in target type");
    assert_eq!(level_error("lzma=-1"), "invalid digit found in string");
    assert_eq!(level_error("lz4=1x"), "invalid digit found in string");
    assert_eq!(level_error("zstd=+"), "invalid digit found in string");
}
