use dandelion::rename::{plan_rename, renamed, title_from_name};

#[test]
fn title_drops_number_dashes_and_extension() {
    assert_eq!(title_from_name("01 - musica.mp3", "mp3"), "musica");
    assert_eq!(title_from_name("03. Nome da Musica.flac", "flac"), "Nome da Musica");
    assert_eq!(title_from_name("faixa.mp3.mp3", "mp3"), "faixa");
    assert_eq!(title_from_name("faixa.MP3", "MP3"), "faixa");
    assert_eq!(title_from_name("2001 A Space.ogg", "ogg"), "A Space");
    assert_eq!(title_from_name("١٢ عنوان.mp3", "mp3"), "عنوان");
    assert_eq!(title_from_name("½ - meio.wav", "wav"), "meio");
    assert_eq!(title_from_name("12.mp3", "mp3"), "mp3");
}

#[test]
fn title_agrees_with_std_trims() {
    let samples = [("01 - musica.mp3", "mp3"), (" - x y .ogg.ogg", "ogg"), ("..a.b.wav", "wav"), ("٣x.flac", "flac")];
    for (name, ext) in samples.iter() {
        let expected = name
            .trim_start_matches(|c: char| c.is_numeric() || c == '-' || c == '.' || c.is_whitespace())
            .trim_end_matches(&format!(".{}", ext))
            .trim();
        assert_eq!(title_from_name(name, ext), expected);
    }
}

#[test]
fn renamed_uses_found_number_or_position() {
    assert_eq!(renamed(0, "01 - musica.mp3", "mp3", "Novo Artista", Some("01".to_string())), "01 - Novo Artista - musica.mp3");
    assert_eq!(renamed(4, "faixa.ogg", "ogg", "A", None), "05 - A - faixa.ogg");
}

#[test]
fn rename_plan_reads_leading_numbers() {
    let paths = vec![
        "d/01 - musica.mp3".to_string(),
        "d/faixa.flac".to_string(),
        "d/123abc.wav".to_string(),
        "d/٣ - x.mp3".to_string(),
    ];
    let plan = plan_rename(&paths, "Novo Artista").unwrap();
    assert_eq!(plan.len(), 4);
    assert_eq!(plan[0].from, "d/01 - musica.mp3");
    assert_eq!(plan[0].new_name, "01 - Novo Artista - musica.mp3");
    assert_eq!(plan[1].new_name, "02 - Novo Artista - faixa.flac");
    assert_eq!(plan[2].new_name, "123 - Novo Artista - abc.wav");
    assert_eq!(plan[3].new_name, "٣ - Novo Artista - x.mp3");
}
