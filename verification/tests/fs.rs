use aubrey::fs::{child_name, norm, Backend, Bytes, MemBackend, Mount, Vfs};
use aubrey::text::{chars_of, insert_rising, less_text, names_contain, starts_with};

#[test]
fn norm_makes_paths_absolute_and_drops_noise() {
    assert_eq!(norm(""), "/");
    assert_eq!(norm("/"), "/");
    assert_eq!(norm("a"), "/a");
    assert_eq!(norm("/a/b"), "/a/b");
    assert_eq!(norm("a/b/"), "/a/b");
    assert_eq!(norm("//a///b//"), "/a/b");
    assert_eq!(norm("./a/./b/."), "/a/b");
    assert_eq!(norm("/a/../b"), "/a/b");
    assert_eq!(norm(".."), "/");
    assert_eq!(norm("/./../."), "/");
    assert_eq!(norm("/.../a"), "/.../a");
    assert_eq!(norm("/.a/b."), "/.a/b.");
    assert_eq!(norm("/ä/日本"), "/ä/日本");
}

#[test]
fn norm_is_idempotent_on_examples() {
    for p in ["", "/", "a//b", "/x/./y/../z/", "..", "/editor/fonts/a.ttf"] {
        let once = norm(p);
        assert_eq!(norm(&once), once);
    }
}

#[test]
fn mem_backend_starts_with_root_only() {
    let m = MemBackend::new();
    assert!(m.exists_at("/"));
    assert!(m.exists_at(""));
    assert!(!m.exists_at("/a"));
    assert_eq!(m.read("/a"), None);
    assert!(m.list("/").is_empty());
}

#[test]
fn mem_backend_write_needs_parent_directory() {
    let mut m = MemBackend::new();
    assert!(m.write("/a.txt", b"one"));
    assert!(!m.write("/dir/b.txt", b"two"));
    assert_eq!(m.read("/dir/b.txt"), None);
    assert!(m.mkdir("/dir"));
    assert!(m.write("/dir/b.txt", b"two"));
    assert_eq!(m.read("/dir/b.txt"), Some(b"two".to_vec()));
    assert_eq!(m.read("dir//./b.txt"), Some(b"two".to_vec()));
    assert!(!m.write("/dir/sub/c.txt", b"x"));
}

#[test]
fn mem_backend_write_overwrites() {
    let mut m = MemBackend::new();
    assert!(m.write("/a", b"one"));
    assert!(m.write("/b", b"bee"));
    assert!(m.write("/a", b"two"));
    assert_eq!(m.read("/a"), Some(b"two".to_vec()));
    assert_eq!(m.read("/b"), Some(b"bee".to_vec()));
    assert_eq!(m.list("/"), vec!["a".to_string(), "b".to_string()]);
}

#[test]
fn mem_backend_mkdir_reports_new_directories_only() {
    let mut m = MemBackend::new();
    assert!(m.mkdir("/x"));
    assert!(!m.mkdir("/x"));
    assert!(!m.mkdir("x/"));
    assert!(!m.mkdir("/"));
    assert!(m.mkdir("/deep/er"));
    assert!(m.exists_at("/deep/er"));
    assert!(!m.exists_at("/deep"));
}

#[test]
fn mem_backend_list_gives_sorted_unique_child_names() {
    let mut m = MemBackend::new();
    assert!(m.mkdir("/editor"));
    assert!(m.mkdir("/editor/fonts"));
    assert!(m.mkdir("/assets"));
    assert!(m.write("/editor/fonts/b.ttf", b"b"));
    assert!(m.write("/editor/fonts/a.ttf", b"a"));
    assert!(m.write("/editor/readme", b"r"));
    assert!(m.write("/zeta", b"z"));
    assert_eq!(m.list("/"), vec!["assets", "editor", "zeta"]);
    assert_eq!(m.list("/editor"), vec!["fonts", "readme"]);
    assert_eq!(m.list("/editor/"), vec!["fonts", "readme"]);
    assert_eq!(m.list("/editor/fonts"), vec!["a.ttf", "b.ttf"]);
    assert!(m.list("/assets").is_empty());
    assert!(m.list("/nowhere").is_empty());
    assert!(m.list("/edit").is_empty());
}

#[test]
fn child_name_cuts_at_the_next_slash() {
    let prefix = chars_of("/a/");
    assert_eq!(child_name("/a/b/c", &prefix, false), Some("b".to_string()));
    assert_eq!(child_name("/a/b", &prefix, true), Some("b".to_string()));
    assert_eq!(child_name("/a/", &prefix, false), Some(String::new()));
    assert_eq!(child_name("/a/", &prefix, true), None);
    assert_eq!(child_name("/ab/c", &prefix, false), None);
    assert_eq!(child_name("/a", &prefix, false), None);
}

#[test]
fn text_helpers() {
    assert_eq!(chars_of("aé日"), vec!['a', 'é', '日']);
    assert!(starts_with(&chars_of("/a/b"), &chars_of("/a")));
    assert!(starts_with(&chars_of("/a"), &chars_of("")));
    assert!(!starts_with(&chars_of("/a"), &chars_of("/a/b")));
    assert!(!starts_with(&chars_of("/b/a"), &chars_of("/a")));
    assert!(less_text(&chars_of("a"), &chars_of("b")));
    assert!(less_text(&chars_of("a"), &chars_of("ab")));
    assert!(less_text(&chars_of(""), &chars_of("a")));
    assert!(!less_text(&chars_of("a"), &chars_of("a")));
    assert!(!less_text(&chars_of("b"), &chars_of("ab")));
    assert!(less_text(&chars_of("Z"), &chars_of("a")));
    assert!(less_text(&chars_of("z"), &chars_of("é")));
    let names = vec!["x".to_string(), "y".to_string()];
    assert!(names_contain(&names, &"y".to_string()));
    assert!(!names_contain(&names, &"z".to_string()));
}

#[test]
fn insert_rising_keeps_order_and_drops_duplicates() {
    let mut names: Vec<String> = Vec::new();
    for n in ["m", "a", "z", "m", "b", "a", "zz", ""] {
        insert_rising(&mut names, n.to_string());
    }
    assert_eq!(names, vec!["", "a", "b", "m", "z", "zz"]);
    let mut expected = vec!["m", "a", "z", "b", "zz", ""];
    expected.sort();
    assert_eq!(names, expected);
}

struct Fixed(&'static str);

impl Backend for Fixed {
    fn read(&self, path: &str) -> Option<Bytes> {
        Some(format!("{}:{}", self.0, path).into_bytes())
    }
    fn write(&mut self, _path: &str, _data: &[u8]) -> bool {
        false
    }
    fn exists_at(&self, path: &str) -> bool {
        self.read(path).is_some()
    }
    fn list(&self, path: &str) -> Vec<String> {
        vec![format!("{}@{}", self.0, path)]
    }
    fn mkdir(&mut self, _path: &str) -> bool {
        false
    }
}

fn text(b: Option<Bytes>) -> Option<String> {
    b.map(|b| String::from_utf8(b).unwrap())
}

#[test]
fn vfs_without_mounts_routes_nowhere() {
    let mut vfs = Vfs::new();
    assert_eq!(vfs.route("/a"), None);
    assert_eq!(vfs.read("/a"), None);
    assert!(!vfs.write("/a", b"x"));
    assert!(!vfs.exists_at("/a"));
    assert!(vfs.list("/").is_empty());
    assert!(!vfs.mkdir("/a"));
}

#[test]
fn vfs_routes_to_longest_matching_mount_point() {
    let mut vfs = Vfs::new();
    vfs.mount("/", Box::new(Fixed("root")));
    vfs.mount("/data", Box::new(Fixed("data")));
    vfs.mount("/data/cache/", Box::new(Fixed("cache")));
    vfs.mount("/d", Box::new(Fixed("d")));
    assert_eq!(text(vfs.read("/x/y")), Some("root:/x/y".to_string()));
    assert_eq!(text(vfs.read("/")), Some("root:/".to_string()));
    assert_eq!(text(vfs.read("/data")), Some("data:/".to_string()));
    assert_eq!(text(vfs.read("/data/f")), Some("data:/f".to_string()));
    assert_eq!(text(vfs.read("/data/cache")), Some("cache:/".to_string()));
    assert_eq!(text(vfs.read("data/./cache//a/b")), Some("cache:/a/b".to_string()));
    assert_eq!(text(vfs.read("/database")), Some("root:/database".to_string()));
    assert_eq!(text(vfs.read("/d/x")), Some("d:/x".to_string()));
    assert_eq!(vfs.list("/data/cache/k"), vec!["cache@/k".to_string()]);
    assert!(vfs.exists_at("/anything"));
}

#[test]
fn vfs_route_reports_mount_and_sub_path() {
    let mut vfs = Vfs::new();
    vfs.mount("/a", Box::new(Fixed("a")));
    vfs.mount("/a/bb", Box::new(Fixed("bb")));
    vfs.mount("/", Box::new(Fixed("root")));
    assert_eq!(vfs.route("/a/bb/c"), Some((0, "/c".to_string())));
    assert_eq!(vfs.route("/a/bb"), Some((0, "/".to_string())));
    assert_eq!(vfs.route("/a/b"), Some((1, "/b".to_string())));
    assert_eq!(vfs.route("/q"), Some((2, "/q".to_string())));
    assert_eq!(vfs.route(""), Some((2, "/".to_string())));
}

#[test]
fn vfs_equal_length_mounts_keep_mount_order() {
    let mut vfs = Vfs::new();
    vfs.mount("/m", Box::new(Fixed("first")));
    vfs.mount("/m", Box::new(Fixed("second")));
    vfs.mount("/n", Box::new(Fixed("third")));
    assert_eq!(text(vfs.read("/m/x")), Some("first:/x".to_string()));
    assert_eq!(text(vfs.read("/n/x")), Some("third:/x".to_string()));
    assert_eq!(vfs.read("/o"), None);
}

#[test]
fn vfs_with_memory_backend_end_to_end() {
    let mut vfs = Vfs::new();
    vfs.mount("/", Box::new(MemBackend::new()));
    assert!(vfs.mkdir("/editor"));
    assert!(vfs.mkdir("/editor/fonts"));
    let font = "/editor/fonts/NotoSans-Regular.ttf";
    assert!(!vfs.exists_at(font));
    assert!(vfs.write(font, &[1, 2, 3]));
    assert!(vfs.exists_at(font));
    assert_eq!(vfs.read(font), Some(vec![1, 2, 3]));
    assert_eq!(vfs.list("/editor/fonts"), vec!["NotoSans-Regular.ttf"]);
    assert!(!vfs.write("/missing/file", &[0]));
}

#[test]
fn vfs_mounted_memory_backend_sees_sub_paths() {
    let mut vfs = Vfs::new();
    vfs.mount("/mem", Box::new(MemBackend::new()));
    assert!(vfs.write("/mem/a", b"x"));
    assert!(vfs.mkdir("/mem/d"));
    assert!(vfs.write("/mem/d/b", b"y"));
    assert_eq!(vfs.list("/mem"), vec!["a", "d"]);
    assert_eq!(vfs.read("/mem/d/b"), Some(b"y".to_vec()));
    assert_eq!(vfs.read("/a"), None);
    assert!(vfs.exists_at("/mem"));
}

#[test]
fn vfs_add_mount_normalizes_the_mount_point() {
    let mut vfs = Vfs::new();
    vfs.add_mount(Mount { at: "data//./x/".to_string(), backend: Box::new(Fixed("x")) });
    vfs.add_mount(Mount { at: "".to_string(), backend: Box::new(Fixed("root")) });
    assert_eq!(vfs.route("/data/x/y"), Some((0, "/y".to_string())));
    assert_eq!(text(vfs.read("/data")), Some("root:/data".to_string()));
}

#[test]
fn default_memory_backend_lacks_even_the_root() {
    let mut m = MemBackend::default();
    assert!(!m.exists_at("/"));
    assert!(!m.write("/a", b"x"));
    assert!(m.mkdir("/"));
    assert!(m.write("/a", b"x"));
}

#[test]
fn mounted_backend_is_the_one_that_answers() {
    let mut vfs = Vfs::new();
    let mut backend = MemBackend::new();
    assert!(backend.mkdir("/kept"));
    assert!(backend.write("/kept/f", b"before"));
    vfs.mount("/", Box::new(backend));
    assert_eq!(vfs.read("/kept/f"), Some(b"before".to_vec()));
    assert!(!vfs.mkdir("/kept"));
}

#[test]
fn backend_answers_from_what_it_holds_after_changes() {
    let mut vfs = Vfs::new();
    vfs.mount("/", Box::new(MemBackend::new()));
    assert!(!vfs.write("/a/f", b"1"));
    assert!(vfs.mkdir("/a"));
    assert!(!vfs.mkdir("/a"));
    assert!(vfs.write("/a/f", b"1"));
    assert!(vfs.write("/a/g", b"2"));
    assert!(vfs.mkdir("/a/sub"));
    assert!(vfs.write("/a/sub/h", b"3"));
    assert_eq!(vfs.list("/a"), vec!["f", "g", "sub"]);
    assert_eq!(vfs.read("/a/f"), Some(b"1".to_vec()));
    assert!(vfs.exists_at("/a/sub"));
    assert!(!vfs.exists_at("/a/none"));
}
