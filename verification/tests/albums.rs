use dandelion::locate::{choose_music_dir, home_user, music_dir_candidates, windows_music_dir};
use dandelion::organize::{
    album_folder, join_path, plan_organize, track_file_name, tracks_in_order, unknown_folder,
    MusicaInfo,
};
use dandelion::reorder::ReorderSession;

#[test]
fn folders_of_an_album() {
    assert_eq!(unknown_folder("/m"), "/m/Desconhecido");
    assert_eq!(album_folder("/m", "Artista Teste", "Album Teste"), "/m/Artista Teste - Album Teste");
}

#[test]
fn track_names_are_numbered_from_one() {
    assert_eq!(track_file_name(0, "Artista", "Nome da Musica", "mp3"), "01 - Artista - Nome da Musica.mp3");
    assert_eq!(track_file_name(9, "A", "x", "flac"), "10 - A - x.flac");
    assert_eq!(track_file_name(99, "A", "x", "ogg"), "100 - A - x.ogg");
}

#[test]
fn join_adds_a_separator_only_when_needed() {
    assert_eq!(join_path("a", "b"), "a/b");
    assert_eq!(join_path("a/", "b"), "a/b");
    assert_eq!(join_path("", "b"), "b");
    for (d, n) in [("x/y", "01 - a.mp3"), ("x/y/", "z"), ("", "q")] {
        let expected = std::path::Path::new(d).join(n);
        assert_eq!(join_path(d, n), expected.to_str().unwrap());
    }
}

#[test]
fn tracks_are_titled_by_stem() {
    let t = tracks_in_order(vec!["/m/Desconhecido/faixa1.mp3".to_string(), "/m/Desconhecido/b.c.flac".to_string()]);
    assert_eq!(t.len(), 2);
    assert_eq!(t[0].arquivo_original, "/m/Desconhecido/faixa1.mp3");
    assert_eq!(t[0].nome_editado, "faixa1");
    assert_eq!(t[1].nome_editado, "b.c");
}

#[test]
fn organize_plan_copies_each_track_to_a_distinct_name() {
    let tracks = tracks_in_order(vec![
        "/m/Desconhecido/faixa1.mp3".to_string(),
        "/m/Desconhecido/faixa2.MP3".to_string(),
    ]);
    let plan = plan_organize("/m", "Artista Teste", "Album Teste", &tracks);
    assert_eq!(plan.source_dir, "/m/Desconhecido");
    assert_eq!(plan.dest_dir, "/m/Artista Teste - Album Teste");
    assert_eq!(plan.transfers.len(), 2);
    assert_eq!(plan.transfers[0].from, "/m/Desconhecido/faixa1.mp3");
    assert_eq!(plan.transfers[0].to, "/m/Artista Teste - Album Teste/01 - Artista Teste - faixa1.mp3");
    assert_eq!(plan.transfers[1].to, "/m/Artista Teste - Album Teste/02 - Artista Teste - faixa2.MP3");
    assert_ne!(plan.transfers[0].to, plan.transfers[1].to);
}

#[test]
fn same_title_twice_still_gets_two_names() {
    let tracks = vec![
        MusicaInfo { arquivo_original: "a/x.mp3".to_string(), nome_editado: "Igual".to_string() },
        MusicaInfo { arquivo_original: "a/y.mp3".to_string(), nome_editado: "Igual".to_string() },
    ];
    let plan = plan_organize("b", "A", "B", &tracks);
    assert_eq!(plan.transfers[0].to, "b/A - B/01 - A - Igual.mp3");
    assert_eq!(plan.transfers[1].to, "b/A - B/02 - A - Igual.mp3");
}

#[test]
fn reorder_session_places_each_file_once() {
    let mut s = ReorderSession::new(vec!["d/a.mp3".to_string(), "d/b.mp3".to_string(), "d/c.mp3".to_string()]);
    assert!(!s.is_done());
    assert_eq!(s.next_position(), 1);
    assert_eq!(s.options(), vec!["a", "b", "c"]);
    let i = s.find("c").unwrap();
    assert_eq!(i, 2);
    s.place(i, None);
    assert_eq!(s.options(), vec!["a", "b"]);
    assert_eq!(s.next_position(), 2);
    let i = s.find("a").unwrap();
    s.place(i, Some("  Abertura  ".to_string()));
    assert!(s.find("zzz").is_none());
    let i = s.find("b").unwrap();
    s.place(i, Some("   ".to_string()));
    assert!(s.is_done());
    assert_eq!(s.order_line(1), "  02. Abertura");
    let done = s.finish();
    let paths: Vec<&str> = done.iter().map(|t| t.arquivo_original.as_str()).collect();
    let titles: Vec<&str> = done.iter().map(|t| t.nome_editado.as_str()).collect();
    assert_eq!(paths, vec!["d/c.mp3", "d/a.mp3", "d/b.mp3"]);
    assert_eq!(titles, vec!["c", "Abertura", "b"]);
}

#[test]
fn find_takes_the_first_equal_title() {
    let s = ReorderSession::new(vec!["x/t.mp3".to_string(), "y/t.flac".to_string()]);
    assert_eq!(s.find("t"), Some(0));
}

#[test]
fn music_folder_candidates_and_choice() {
    assert_eq!(windows_music_dir("caio"), "/mnt/c/Users/caio/Music");
    assert_eq!(home_user("/home/caio"), "caio");
    assert_eq!(home_user("/home/caio/"), "");
    assert_eq!(home_user("caio"), "caio");
    assert_eq!(home_user("/home/caio"), "/home/caio".split('/').next_back().unwrap());
    let c = music_dir_candidates(Some("u"), Some("/home/h"));
    assert_eq!(c, vec!["/mnt/c/Users/u/Music", "/mnt/c/Users/h/Music"]);
    assert_eq!(music_dir_candidates(None, Some("/home/h")), vec!["/mnt/c/Users/h/Music"]);
    assert!(music_dir_candidates(None, None).is_empty());
    assert_eq!(choose_music_dir(&c, &vec![false, true]), "/mnt/c/Users/h/Music");
    assert_eq!(choose_music_dir(&c, &vec![true, true]), "/mnt/c/Users/u/Music");
    assert_eq!(choose_music_dir(&c, &vec![false, false]), "/mnt/c/Users/Public/Music");
    assert_eq!(choose_music_dir(&Vec::new(), &Vec::new()), "/mnt/c/Users/Public/Music");
}
