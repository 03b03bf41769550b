use ash::commands::{
    add_recents, advance, append_tsh_to_ssh_config, browse_local, browse_remote, choices, code,
    entry_of, exec, find_entry, get_file, get_hosts, key_of, list_command, parse_ls_output,
    put_file, record_host, remote_target, scp_execute, select_entry, select_host, sort_entries,
    ssh, Browse, Entry, Source, PWD_COMMAND,
};
use ash::prelude::Error;
use ash::select::Step;
use ash::history::History;
use ash::teleport::{Host, Label, Metadata, Spec};
use std::path::PathBuf;

fn host(key: &str, hostname: &str) -> Host {
    Host {
        kind: "node".to_string(),
        version: "v2".to_string(),
        metadata: Metadata {
            name: key.to_string(),
            labels: Vec::new(),
            expires: String::new(),
            id: 0,
        },
        spec: Spec {
            addr: String::new(),
            hostname: hostname.to_string(),
            use_tunnel: None,
            version: String::new(),
            public_addr: None,
        },
    }
}

fn keys(hosts: &Vec<Host>) -> Vec<String> {
    hosts.iter().map(|h| h.key().to_string()).collect()
}

fn history_of(entries: Vec<Host>) -> History {
    History { entries, path: PathBuf::from("/tmp/history") }
}

fn entry(name: &str, is_dir: bool) -> Entry {
    Entry { path: format!("/base/{}", name), file_name: name.to_string(), is_dir, is_selected: false }
}

fn names(entries: &Vec<Entry>) -> Vec<String> {
    entries.iter().map(|e| e.file_name.clone()).collect()
}

fn descend(next: Option<Browse>) -> String {
    match next {
        Some(Browse::Descend(dir)) => dir,
        other => panic!("expected a directory to go on with, got {:?}", other),
    }
}

fn found(next: Option<Browse>) -> String {
    match next {
        Some(Browse::Found(path)) => path,
        other => panic!("expected the path of a file, got {:?}", other),
    }
}

const LS: &str = r#"
./
../
.DS_Store
.git/
.gitignore
.vscode/
Cargo.lock
Cargo.toml
ash
ash.config.json
clippy.sh
res/
rustfmt.toml
src/
target/
test.txt
"#;

#[test]
fn parse_ls_output_succeeds() {
    let res = parse_ls_output(LS, "/test/");
    assert!(res.is_ok());
    println!("{:#?}", res.unwrap());
}

#[test]
fn parse_ls_output_lists_every_line_directories_first() {
    let res = parse_ls_output(LS, "/test/").unwrap();
    assert_eq!(
        names(&res),
        vec![
            "../",
            "./",
            ".git/",
            ".vscode/",
            "res/",
            "src/",
            "target/",
            "",
            ".DS_Store",
            ".gitignore",
            "Cargo.lock",
            "Cargo.toml",
            "ash",
            "ash.config.json",
            "clippy.sh",
            "rustfmt.toml",
            "test.txt",
        ]
    );
    assert!(res.iter().all(|e| e.is_dir == e.file_name.ends_with('/')));
    assert!(res.iter().all(|e| !e.is_selected));
}

#[test]
fn parse_ls_output_of_dot_dotdot_sub_and_file() {
    let res = parse_ls_output("./\n../\nsub/\nfile.txt", "/home/ubuntu").unwrap();
    assert_eq!(res.len(), 4);
    assert!(res[0].is_dir);
    assert!(res[1].is_dir);
    assert!(res[2].is_dir);
    assert!(!res[3].is_dir);
    assert_eq!(res[3].file_name, "file.txt");
    let mut listed = names(&res);
    listed.sort();
    assert_eq!(listed, vec!["../", "./", "file.txt", "sub/"]);
    assert_eq!(choices(&res), vec!["../", "sub/", "file.txt"]);
}

#[test]
fn parse_ls_output_puts_directories_before_files_that_came_first() {
    let res = parse_ls_output("file.txt\nsub/\n../\n./\n", "/").unwrap();
    assert_eq!(names(&res), vec!["../", "./", "sub/", "file.txt"]);
    assert_eq!(choices(&res), vec!["../", "sub/", "file.txt"]);
}

#[test]
fn parse_ls_output_joins_the_base_path_and_the_name() {
    let res = parse_ls_output("a.txt\nsub/\n", "/test/").unwrap();
    assert_eq!(names(&res), vec!["sub/", "a.txt"]);
    assert_eq!(PathBuf::from(&res[0].path), PathBuf::from("/test/").join("sub/"));
    assert_eq!(PathBuf::from(&res[1].path), PathBuf::from("/test/").join("a.txt"));
    assert_ne!(res[1].path, "/test/");
    assert_ne!(res[1].path, "a.txt");
}

#[test]
fn parse_ls_output_of_nothing_is_empty() {
    assert!(parse_ls_output("", "/test/").unwrap().is_empty());
}

#[test]
fn parse_ls_output_strips_carriage_returns_before_line_feeds() {
    let res = parse_ls_output("b\r\na/\r\n", "/").unwrap();
    assert_eq!(names(&res), vec!["a/", "b"]);
}

#[test]
fn entry_of_reads_the_kind_from_the_last_character() {
    let dir = entry_of("sub/", "/x/sub/".to_string());
    assert!(dir.is_dir);
    assert_eq!(dir.file_name, "sub/");
    assert_eq!(dir.path, "/x/sub/");
    assert!(!dir.is_selected);
    let file = entry_of("a/b", "/x/a/b".to_string());
    assert!(!file.is_dir);
    let empty = entry_of("", "/x".to_string());
    assert!(!empty.is_dir);
    assert_eq!(empty.file_name, "");
}

#[test]
fn sort_entries_puts_directories_first_then_orders_by_name() {
    let sorted = sort_entries(vec![
        entry("b.txt", false),
        entry("A/", true),
        entry("a.txt", false),
        entry("B/", true),
    ]);
    assert_eq!(names(&sorted), vec!["A/", "B/", "a.txt", "b.txt"]);
    assert!(sorted[0].is_dir && sorted[1].is_dir && !sorted[2].is_dir && !sorted[3].is_dir);
}

#[test]
fn sort_entries_orders_by_code_point_capitals_first() {
    let sorted = sort_entries(vec![
        entry("b", false),
        entry("a", false),
        entry("B", false),
        entry("", false),
        entry("ab", false),
        entry("\u{e9}", false),
        entry("z", false),
    ]);
    assert_eq!(names(&sorted), vec!["", "B", "a", "ab", "b", "z", "\u{e9}"]);
}

#[test]
fn sort_entries_goes_by_the_kind_not_by_a_slash_in_the_name() {
    let sorted = sort_entries(vec![entry("a/", false), entry("z", true)]);
    assert_eq!(names(&sorted), vec!["z", "a/"]);
}

#[test]
fn sort_entries_keeps_entries_with_one_key_in_their_order() {
    let mut first = entry("same", false);
    first.path = "first".to_string();
    let mut second = entry("same", false);
    second.path = "second".to_string();
    let sorted = sort_entries(vec![first, entry("a/", true), second]);
    assert_eq!(names(&sorted), vec!["a/", "same", "same"]);
    assert_eq!(sorted[1].path, "first");
    assert_eq!(sorted[2].path, "second");
}

#[test]
fn key_of_prefixes_the_kind() {
    assert_eq!(key_of(&entry("sub/", true)), "asub/");
    assert_eq!(key_of(&entry("file", false)), "bfile");
    assert_eq!(key_of(&entry("", false)), "b");
}

#[test]
fn choices_leave_out_the_directory_itself_only() {
    let entries = vec![entry("./", true), entry("../", true), entry(".", false), entry("./x", false), entry("./", true)];
    assert_eq!(choices(&entries), vec!["../", ".", "./x"]);
    assert!(choices(&Vec::new()).is_empty());
}

#[test]
fn find_entry_takes_the_first_of_that_name() {
    let mut second = entry("x", false);
    second.path = "second".to_string();
    let entries = vec![entry("a", false), entry("x", true), second];
    let hit = find_entry(&entries, "x").unwrap();
    assert!(hit.is_dir);
    assert_eq!(hit.path, "/base/x");
    assert!(find_entry(&entries, "y").is_none());
    assert!(find_entry(&Vec::new(), "x").is_none());
}

#[test]
fn add_recents_without_history_is_the_inventory() {
    let inventory = vec![host("b", "beta"), host("a", "alpha"), host("c", "gamma")];
    let (offer, pruned) = add_recents(inventory, History::new(PathBuf::from("p")));
    assert_eq!(keys(&offer), vec!["b", "a", "c"]);
    assert!(pruned.entries.is_empty());
    assert_eq!(pruned.path, PathBuf::from("p"));
}

#[test]
fn add_recents_puts_the_history_first_in_its_order() {
    let inventory = vec![host("a", "alpha"), host("b", "beta"), host("c", "gamma"), host("d", "delta")];
    let history = history_of(vec![host("c", "gamma"), host("a", "alpha")]);
    let (offer, pruned) = add_recents(inventory, history);
    assert_eq!(keys(&offer), vec!["c", "a", "b", "d"]);
    assert_eq!(offer.len(), 4);
    assert_eq!(keys(&pruned.entries), vec!["c", "a"]);
}

#[test]
fn add_recents_forgets_hosts_that_left_the_inventory() {
    let inventory = vec![host("a", "alpha"), host("b", "beta")];
    let history = history_of(vec![host("x", "gone"), host("b", "beta"), host("y", "gone too")]);
    let (offer, pruned) = add_recents(inventory, history);
    assert_eq!(keys(&offer), vec!["b", "a"]);
    assert_eq!(keys(&pruned.entries), vec!["b"]);
    assert_eq!(pruned.path, PathBuf::from("/tmp/history"));
}

#[test]
fn add_recents_shows_the_history_entry_not_the_inventory_entry() {
    let inventory = vec![host("a", "new name"), host("b", "beta")];
    let history = history_of(vec![host("a", "old name")]);
    let (offer, _) = add_recents(inventory, history);
    assert_eq!(keys(&offer), vec!["a", "b"]);
    assert_eq!(offer[0].name(), "old name");
}

#[test]
fn add_recents_with_a_key_twice_in_the_inventory() {
    let inventory = vec![host("a", "one"), host("b", "beta"), host("a", "two")];
    let (offer, _) = add_recents(inventory, history_of(vec![host("a", "old")]));
    assert_eq!(keys(&offer), vec!["a", "b"]);
    let inventory = vec![host("a", "one"), host("b", "beta"), host("a", "two")];
    let (offer, _) = add_recents(inventory, History::new(PathBuf::from("p")));
    assert_eq!(keys(&offer), vec!["a", "b", "a"]);
}

#[test]
fn add_recents_of_nothing_is_nothing() {
    let (offer, pruned) = add_recents(Vec::new(), history_of(vec![host("a", "alpha")]));
    assert!(offer.is_empty());
    assert!(pruned.entries.is_empty());
}

#[test]
fn browse_remote_ends_at_a_file_with_host_and_path() {
    let entries = vec![entry("../", true), entry("sub/", true), entry("file.txt", false)];
    let next = browse_remote("ubuntu@alpha.aws", "/home/ubuntu", &entries, "file.txt");
    assert_eq!(found(next), "ubuntu@alpha.aws:/home/ubuntu/file.txt");
}

#[test]
fn browse_remote_enters_a_directory() {
    let entries = vec![entry("../", true), entry("sub/", true), entry("file.txt", false)];
    let next = browse_remote("ubuntu@alpha.aws", "/home/ubuntu", &entries, "sub/");
    assert_eq!(descend(next), "/home/ubuntu/sub/");
}

#[test]
fn browse_remote_goes_up_on_the_parent_entry() {
    let entries = vec![entry("../", true), entry("sub/", true)];
    let next = browse_remote("ubuntu@alpha.aws", "/home/ubuntu", &entries, "../");
    assert_eq!(PathBuf::from(descend(next)), PathBuf::from("/home"));
}

#[test]
fn browse_remote_stays_at_the_root() {
    let entries = vec![entry("../", true), entry("etc/", true)];
    let next = browse_remote("ubuntu@alpha.aws", "/", &entries, "../");
    assert_eq!(descend(next), "/");
}

#[test]
fn browse_remote_of_a_name_that_is_not_listed_is_nothing() {
    let entries = vec![entry("../", true), entry("sub/", true)];
    assert!(browse_remote("h", "/home", &entries, "other").is_none());
    assert!(browse_remote("h", "/home", &Vec::new(), "../").is_none());
}

#[test]
fn browse_remote_takes_a_file_named_like_the_parent_entry_as_a_file() {
    let entries = vec![entry("../", false)];
    let next = browse_remote("h", "/home", &entries, "../");
    assert_eq!(found(next), "h:/home/../");
}

#[test]
fn browse_local_joins_paths_as_the_platform_does() {
    let entries = vec![entry("sub", true), entry("file.txt", false)];
    let next = browse_local("/home/me", &entries, "file.txt");
    assert_eq!(PathBuf::from(found(next)), PathBuf::from("/home/me").join("file.txt"));
    let next = browse_local("/home/me", &entries, "sub");
    assert_eq!(PathBuf::from(descend(next)), PathBuf::from("/home/me").join("sub"));
    assert!(browse_local("/home/me", &entries, "none").is_none());
}

#[test]
fn browse_local_goes_up_on_the_parent_entry() {
    let entries = vec![entry("../", true)];
    let next = browse_local("/home/me", &entries, "../");
    assert_eq!(PathBuf::from(descend(next)), PathBuf::from("/home"));
    let next = browse_local("/", &entries, "../");
    assert_eq!(descend(next), "/");
}

#[test]
fn advance_follows_the_kind_of_the_entry() {
    let file = entry("f", false);
    let dir = entry("d/", true);
    let up = entry("../", true);
    assert_eq!(found(Some(advance(&file, "/b", "below".to_string(), Some("above".to_string())))), "below");
    assert_eq!(descend(Some(advance(&dir, "/b", "below".to_string(), Some("above".to_string())))), "below");
    assert_eq!(descend(Some(advance(&up, "/b", "below".to_string(), Some("above".to_string())))), "above");
    assert_eq!(descend(Some(advance(&up, "/b", "below".to_string(), None))), "/b");
}

#[test]
fn pwd_command_asks_for_the_working_directory() {
    assert_eq!(PWD_COMMAND, "pwd");
}

#[test]
fn list_command_lists_the_directory() {
    assert_eq!(list_command("/home/ubuntu"), "ls --group-directories-first -pa1 /home/ubuntu");
    assert_eq!(list_command(""), "ls --group-directories-first -pa1 ");
}

#[test]
fn remote_target_is_user_hostname_and_suffix() {
    assert_eq!(remote_target(&host("h1", "alpha")), "ubuntu@alpha.aws");
}

#[test]
fn ssh_calls_the_access_client_with_the_login() {
    let call = ssh(&host("h1", "alpha"));
    assert_eq!(call.program, "tsh");
    assert_eq!(call.args, vec!["--proxy", "gate.mago.cloud", "--auth", "github", "ssh", "ubuntu@alpha"]);
}

#[test]
fn exec_adds_the_command() {
    let call = exec(&host("h1", "alpha"), "uname -a");
    assert_eq!(call.program, "tsh");
    assert_eq!(
        call.args,
        vec!["--proxy", "gate.mago.cloud", "--auth", "github", "ssh", "ubuntu@alpha", "uname -a"]
    );
}

#[test]
fn code_opens_the_root_of_the_host_in_its_cluster() {
    let mut h = host("h1", "alpha");
    h.metadata.labels.push(Label { key: "cluster".to_string(), value: "aws".to_string() });
    let call = code("code", &h);
    assert_eq!(call.program, "code");
    assert_eq!(call.args, vec!["--folder-uri", "vscode-remote://ssh-remote+ubuntu@alpha.aws/"]);
    let call = code("code.cmd", &host("h2", "beta"));
    assert_eq!(call.program, "code.cmd");
    assert_eq!(call.args, vec!["--folder-uri", "vscode-remote://ssh-remote+ubuntu@beta./"]);
}

#[test]
fn scp_execute_copies_recursively() {
    let call = scp_execute("a", "b:c");
    assert_eq!(call.program, "scp");
    assert_eq!(call.args, vec!["-r", "a", "b:c"]);
}

#[test]
fn get_file_copies_into_the_current_directory() {
    let call = get_file("ubuntu@alpha.aws:/home/ubuntu/file.txt");
    assert_eq!(call.program, "scp");
    assert_eq!(call.args, vec!["-r", "ubuntu@alpha.aws:/home/ubuntu/file.txt", "."]);
}

#[test]
fn put_file_copies_to_the_home_directory_on_the_host() {
    let call = put_file("/home/me/file.txt", &host("h1", "alpha"));
    assert_eq!(call.program, "scp");
    assert_eq!(call.args, vec!["-r", "/home/me/file.txt", "ubuntu@alpha.aws:"]);
}

#[test]
fn append_tsh_to_ssh_config_does_nothing_where_the_marker_stands() {
    let config = "Host *\n  User me\n# Begin generated Teleport configuration for gate\nHost x\n";
    assert!(append_tsh_to_ssh_config(config).is_none());
    assert!(append_tsh_to_ssh_config("# Begin generated Teleport configuration").is_none());
}

#[test]
fn append_tsh_to_ssh_config_asks_for_the_configuration_where_it_is_missing() {
    for config in ["", "Host *\n  User me\n", "# Begin generated Teleport configuratio", "# begin generated teleport configuration"] {
        let call = append_tsh_to_ssh_config(config).unwrap();
        assert_eq!(call.program, "tsh");
        assert_eq!(call.args, vec!["--proxy", "gate.mago.cloud", "--auth", "github", "config"]);
    }
}

#[test]
fn get_hosts_uses_the_cache_where_there_is_one() {
    match get_hosts(Some(b"[]".to_vec())) {
        Source::Cache(bytes) => assert_eq!(bytes, b"[]".to_vec()),
        other => panic!("expected the cache, got {:?}", other),
    }
    match get_hosts(Some(Vec::new())) {
        Source::Cache(bytes) => assert!(bytes.is_empty()),
        other => panic!("expected the cache, got {:?}", other),
    }
}

#[test]
fn get_hosts_asks_the_inventory_source_without_a_cache() {
    match get_hosts(None) {
        Source::Fetch(call) => {
            assert_eq!(call.program, "tsh");
            assert_eq!(call.args, vec!["--proxy", "gate.mago.cloud", "--auth", "github", "ls", "-f", "json"]);
        }
        other => panic!("expected a call, got {:?}", other),
    }
}

#[test]
fn select_entry_asks_over_the_choices_without_hint() {
    let entries = vec![entry("../", true), entry("./", true), entry("only.txt", false)];
    match select_entry(&entries) {
        Ok(Step::Ask(prompt)) => {
            assert_eq!(prompt.message, "");
            assert_eq!(prompt.items, vec!["../", "only.txt"]);
            assert_eq!(prompt.initial_text, "");
            assert_eq!(prompt.default, 0);
        }
        other => panic!("expected a prompt, got {:?}", other),
    }
    assert!(matches!(select_entry(&vec![entry("one", false)]), Ok(Step::Ask(_))));
}

#[test]
fn select_entry_of_an_empty_listing_fails_with_empty_list() {
    assert!(matches!(select_entry(&Vec::new()), Err(Error::EmptyList)));
    assert!(matches!(select_entry(&vec![entry("./", true)]), Err(Error::EmptyList)));
}

#[test]
fn select_host_by_a_hint_that_names_one_host_needs_no_prompt() {
    let inventory = vec![host("h1", "alpha"), host("h2", "beta")];
    let offer = select_host(inventory, History::new(PathBuf::from("history")), "beta");
    assert_eq!(keys(&offer.hosts), vec!["h1", "h2"]);
    assert!(offer.recents.entries.is_empty());
    assert_eq!(offer.recents.path, PathBuf::from("history"));
    let index = match offer.step {
        Ok(Step::Done(index)) => index,
        other => panic!("expected a selection without a prompt, got {:?}", other),
    };
    assert_eq!(index, 1);
    let (chosen, history) = record_host(&offer.hosts, offer.recents, index).unwrap();
    assert_eq!(chosen.key(), "h2");
    assert_eq!(chosen.name(), "beta");
    assert_eq!(keys(&history.entries), vec!["h2"]);
    assert_eq!(history.path, PathBuf::from("history"));
}

#[test]
fn select_host_offers_recent_hosts_first_and_forgets_lost_ones() {
    let inventory = vec![host("a", "alpha"), host("b", "beta"), host("c", "gamma")];
    let history = history_of(vec![host("c", "gamma"), host("x", "gone"), host("a", "alpha")]);
    let offer = select_host(inventory, history, "");
    assert_eq!(keys(&offer.hosts), vec!["c", "a", "b"]);
    assert_eq!(keys(&offer.recents.entries), vec!["c", "a"]);
    match &offer.step {
        Ok(Step::Ask(prompt)) => {
            assert_eq!(prompt.items, vec!["gamma []", "alpha []", " beta []"]);
            assert_eq!(prompt.initial_text, "");
            assert_eq!(prompt.default, 0);
        }
        other => panic!("expected a prompt, got {:?}", other),
    }
    let (chosen, history) = record_host(&offer.hosts, offer.recents, 2).unwrap();
    assert_eq!(chosen.key(), "b");
    assert_eq!(keys(&history.entries), vec!["b", "c", "a"]);
}

#[test]
fn select_host_fails_as_the_selector_does_and_still_cuts_the_history() {
    let history = history_of(vec![host("x", "gone"), host("a", "alpha")]);
    let offer = select_host(vec![host("a", "alpha")], history, "zzz");
    assert!(matches!(offer.step, Err(Error::NoMatch)));
    assert_eq!(keys(&offer.recents.entries), vec!["a"]);
    let offer = select_host(Vec::new(), history_of(vec![host("a", "alpha")]), "a");
    assert!(matches!(offer.step, Err(Error::EmptyList)));
    assert!(offer.recents.entries.is_empty());
    assert!(offer.hosts.is_empty());
}

#[test]
fn record_host_of_a_place_without_host_is_nothing() {
    let hosts = vec![host("a", "alpha")];
    assert!(record_host(&hosts, History::new(PathBuf::from("p")), 1).is_none());
    assert!(record_host(&Vec::new(), History::new(PathBuf::from("p")), 0).is_none());
}
