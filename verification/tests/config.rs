use chord_charts::config::Config;

#[test]
fn config_needs_a_working_directory() {
    let args = vec![String::from("prog")];
    match Config::new(&args, true) {
        Err(e) => assert_eq!(e, "No working directory given"),
        Ok(_) => panic!("expected an error"),
    }
}

#[test]
fn config_needs_a_directory() {
    let args = vec![String::from("prog"), String::from("site")];
    match Config::new(&args, false) {
        Err(e) => assert_eq!(e, "Not a directory"),
        Ok(_) => panic!("expected an error"),
    }
}

#[test]
fn config_paths_under_the_working_directory() {
    let args = vec![String::from("prog"), String::from("site"), String::from("extra")];
    let c = Config::new(&args, true).unwrap();
    assert_eq!(c.work_dir, "site");
    assert_eq!(c.shb_src_dir, "site/data/shb");
    assert_eq!(c.lst_src_dir, "site/data/lst");
    assert_eq!(c.bin_out_dir, "site/data/cbor");
    assert_eq!(c.song_out_dir, "site/song");
    assert_eq!(c.list_out_dir, "site/list");
}

#[test]
fn config_paths_after_a_trailing_slash() {
    let args = vec![String::from("prog"), String::from("/srv/site/")];
    let c = Config::new(&args, true).unwrap();
    assert_eq!(c.shb_src_dir, "/srv/site/data/shb");
    assert_eq!(c.list_out_dir, "/srv/site/list");
}
