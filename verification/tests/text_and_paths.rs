use dandelion::path::{extension_of, file_name_of, stem_of};
use dandelion::text::{decimal_string, is_blank, is_white_space_char, str_eq, str_lt, trim};

#[test]
fn white_space_matches_std_for_every_char() {
    for u in 0u32..=0x10FFFF {
        if let Some(c) = char::from_u32(u) {
            assert_eq!(is_white_space_char(c), c.is_whitespace(), "{:x}", u);
        }
    }
}

#[test]
fn trim_matches_std() {
    let samples = [
        "", " ", "  a  ", "\t\nb\r", "\u{3000}x\u{a0}", "a b", "\u{200b}z", " \u{85}", "abc",
    ];
    for s in samples.iter() {
        assert_eq!(trim(s), s.trim());
        assert_eq!(is_blank(s), s.trim().is_empty());
    }
}

#[test]
fn decimal_matches_format() {
    for n in [0usize, 1, 9, 10, 99, 100, 12345, usize::MAX] {
        assert_eq!(decimal_string(n), format!("{}", n));
    }
}

#[test]
fn string_order_and_equality_match_std() {
    let samples = ["", "a", "b", "ab", "abc", "B", "ä", "a\u{0}", "zz", "ab"];
    for a in samples.iter() {
        for b in samples.iter() {
            assert_eq!(str_lt(a, b), a < b, "{:?} {:?}", a, b);
            assert_eq!(str_eq(a, b), a == b);
        }
    }
}

#[test]
fn path_parts_match_std() {
    let samples = [
        "song.mp3", "a/b/c.flac", "a/b/c.flac/", "a/b/c.flac//", "a/b/c.flac/.", "a/b/..", "..",
        ".", "/", "", "./", "x.tar.gz", ".bashrc", ".bash.rc", "a.", "...", "..a", "/a/.b/c",
        "a/./b.ogg", "a//b.wav", "dir/faixa 01.mp3", "música/canção.Mp3",
    ];
    for s in samples.iter() {
        let p = std::path::Path::new(s);
        assert_eq!(file_name_of(s), p.file_name().map(|x| x.to_str().unwrap()), "name {:?}", s);
        assert_eq!(extension_of(s), p.extension().map(|x| x.to_str().unwrap()), "ext {:?}", s);
        assert_eq!(stem_of(s), p.file_stem().map(|x| x.to_str().unwrap()), "stem {:?}", s);
    }
}
