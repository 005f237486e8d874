use dandelion::music::{collect_music_files, eh_arquivo_musica, listing_line, size_unit, sort_paths, SizeUnit};

// ─── eh_arquivo_musica ───

#[test]
fn test_musica_mp3() {
    assert!(eh_arquivo_musica("song.mp3"));
}

#[test]
fn test_musica_flac() {
    assert!(eh_arquivo_musica("song.flac"));
}

#[test]
fn test_musica_m4a() {
    assert!(eh_arquivo_musica("song.m4a"));
}

#[test]
fn test_musica_wav() {
    assert!(eh_arquivo_musica("song.wav"));
}

#[test]
fn test_musica_ogg() {
    assert!(eh_arquivo_musica("song.ogg"));
}

#[test]
fn test_musica_opus() {
    assert!(eh_arquivo_musica("song.opus"));
}

#[test]
fn test_musica_aac() {
    assert!(eh_arquivo_musica("song.aac"));
}

#[test]
fn test_musica_wma() {
    assert!(eh_arquivo_musica("song.wma"));
}

#[test]
fn test_extensao_maiuscula_valida() {
    assert!(eh_arquivo_musica("song.MP3"));
    assert!(eh_arquivo_musica("song.FLAC"));
}

#[test]
fn test_nao_musica_txt() {
    assert!(!eh_arquivo_musica("arquivo.txt"));
}

#[test]
fn test_nao_musica_jpg() {
    assert!(!eh_arquivo_musica("imagem.jpg"));
}

#[test]
fn test_nao_musica_pdf() {
    assert!(!eh_arquivo_musica("doc.pdf"));
}

#[test]
fn test_sem_extensao() {
    assert!(!eh_arquivo_musica("arquivo_sem_extensao"));
}

// ─── further cases ───

#[test]
fn music_check_reads_only_the_last_component() {
    assert!(eh_arquivo_musica("/mnt/c/Users/x/Music/Desconhecido/faixa.Ogg"));
    assert!(!eh_arquivo_musica("/music.mp3/capa.png"));
    assert!(eh_arquivo_musica("dir/faixa.mp3/"));
    assert!(eh_arquivo_musica("dir/faixa.mp3/."));
    assert!(!eh_arquivo_musica("dir/faixa.mp3/.."));
    assert!(!eh_arquivo_musica(".mp3"));
    assert!(eh_arquivo_musica("..mp3"));
    assert!(!eh_arquivo_musica("song.mp3.bak"));
    assert!(eh_arquivo_musica("song.bak.mp3"));
    assert!(!eh_arquivo_musica("song.mp"));
    assert!(!eh_arquivo_musica("song.mp33"));
    assert!(!eh_arquivo_musica(""));
    assert!(!eh_arquivo_musica("/"));
    assert!(eh_arquivo_musica("a.WmA"));
    assert!(eh_arquivo_musica("a.oPuS"));
    assert!(eh_arquivo_musica("a.M4A"));
    assert!(eh_arquivo_musica("a.AAC"));
    assert!(eh_arquivo_musica("a.Wav"));
}

#[test]
fn music_check_agrees_with_path_extension_and_to_lowercase() {
    let samples = [
        "song.mp3", "SONG.MP3", "a/b/c.flac", "a/b/c.flac/", "x.tar.ogg", ".ogg", "noext", "a.",
        "a..", "..", ".", "/", "", "dir/.hidden", "dir/.hidden.wav", "música.Mp3", "faixa.mp3 ",
        "faixa.\u{212A}", "x/./y.opus", "x/y.opus/./", "\u{130}.wma", "a.wma\u{307}",
    ];
    for s in samples.iter() {
        let expected = match std::path::Path::new(s).extension() {
            Some(e) => {
                let l = e.to_str().unwrap().to_lowercase();
                matches!(l.as_str(), "mp3" | "flac" | "m4a" | "wav" | "ogg" | "opus" | "aac" | "wma")
            }
            None => false,
        };
        assert_eq!(eh_arquivo_musica(s), expected, "{:?}", s);
    }
}

#[test]
fn sorting_orders_by_text() {
    let v = vec![
        "d/b.mp3".to_string(),
        "d/a.mp3".to_string(),
        "d/C.mp3".to_string(),
        "d/a.mp3".to_string(),
        "d/ä.mp3".to_string(),
        "d/10.mp3".to_string(),
        "d/2.mp3".to_string(),
    ];
    let r = sort_paths(&v);
    let mut expected = v.clone();
    expected.sort();
    assert_eq!(r, expected);
    assert_eq!(r[0], "d/10.mp3");
}

#[test]
fn collecting_keeps_music_in_order() {
    let v = vec![
        "dir/musica2.flac".to_string(),
        "dir/imagem.jpg".to_string(),
        "dir/musica1.mp3".to_string(),
        "dir/notas.txt".to_string(),
        "dir/Faixa.WAV".to_string(),
    ];
    let r = collect_music_files(&v);
    assert_eq!(r, vec!["dir/Faixa.WAV", "dir/musica1.mp3", "dir/musica2.flac"]);
    assert!(collect_music_files(&vec!["a.txt".to_string()]).is_empty());
    assert!(collect_music_files(&Vec::new()).is_empty());
}

#[test]
fn listing_line_layout() {
    assert_eq!(
        listing_line(0, "/x/Desconhecido/musica1.mp3", "1.5 KB"),
        "  1  . [MP3] musica1.mp3 (1.5 KB)"
    );
    assert_eq!(listing_line(11, "b.Flac", "2.0 MB"), "  12 . [FLAC] b.Flac (2.0 MB)");
    assert_eq!(listing_line(999, "c.ogg", "?"), "  1000. [OGG] c.ogg (?)");
    let expected = format!("  {:<3}. [{}] {} ({})", 5, "OPUS", "d.opus", "3 KB");
    assert_eq!(listing_line(4, "dir/d.opus", "3 KB"), expected);
}

#[test]
fn size_unit_threshold() {
    assert_eq!(size_unit(0), SizeUnit::Kilobytes);
    assert_eq!(size_unit(1024 * 1024 - 1), SizeUnit::Kilobytes);
    assert_eq!(size_unit(1024 * 1024), SizeUnit::Megabytes);
    assert_eq!(size_unit(u64::MAX), SizeUnit::Megabytes);
}
