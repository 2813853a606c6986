use std::collections::HashMap;

use yerd_proxy::script_file::{
    contain, is_contained, resolve_rule_target, resolve_script, Answer, Containment, Probe,
    RuleSearch, ScriptResolution, Search,
};

/// A tree in memory: what each path is, and where symbolic links lead.
#[derive(Default)]
struct Tree {
    files: Vec<String>,
    dirs: Vec<String>,
    links: HashMap<String, String>,
}

impl Tree {
    fn at(root: &str) -> Tree {
        Tree { dirs: vec![root.to_owned()], ..Tree::default() }
    }

    fn file(mut self, path: &str) -> Tree {
        self.files.push(path.to_owned());
        self
    }

    fn dir(mut self, path: &str) -> Tree {
        self.dirs.push(path.to_owned());
        self
    }

    fn link(mut self, path: &str, to: &str) -> Tree {
        self.links.insert(path.to_owned(), to.to_owned());
        self
    }

    fn canonical(&self, path: &str) -> Option<String> {
        let path = path.trim_end_matches('/');
        let real = self.links.get(path).map_or(path, String::as_str);
        if self.files.iter().any(|f| f == real) || self.dirs.iter().any(|d| d == real) {
            Some(real.to_owned())
        } else {
            None
        }
    }

    fn answer(&self, probe: &Probe) -> Answer {
        match probe {
            Probe::Canonicalize(path) => Answer::Path(self.canonical(path)),
            Probe::Locate { path, root } => {
                Answer::Located(self.canonical(path).map(|real| contain(real, root)))
            }
            Probe::IsFile(path) => Answer::Is(self.files.contains(path)),
            Probe::IsDirectory(path) => Answer::Is(self.dirs.contains(path)),
        }
    }

    fn resolve(&self, path: &str, protection: bool) -> ScriptResolution {
        let mut answers = Vec::new();
        loop {
            match resolve_script(path, "/site", "/site", protection, &answers) {
                Search::Done(found) => return found,
                Search::Ask(probe) => answers.push(self.answer(&probe)),
            }
            assert!(answers.len() <= 7);
        }
    }

    fn rule(&self, target: &str, protection: bool) -> bool {
        let mut answers = Vec::new();
        loop {
            match resolve_rule_target("/site", "/site", target, protection, &answers) {
                RuleSearch::Done(found) => return found,
                RuleSearch::Ask(probe) => answers.push(self.answer(&probe)),
            }
            assert!(answers.len() <= 3);
        }
    }
}

fn script(rel: &str) -> ScriptResolution {
    ScriptResolution::Script(rel.to_owned())
}

#[test]
fn resolves_exact_php_file_match() {
    let tree = Tree::at("/site").file("/site/wp-login.php");
    assert_eq!(tree.resolve("/wp-login.php", true), script("wp-login.php"));
}

#[test]
fn resolves_path_info_split_for_real_script() {
    let tree = Tree::at("/site").dir("/site/theme").file("/site/theme/styles.php");
    assert_eq!(
        tree.resolve("/theme/styles.php/moove/123/all", true),
        ScriptResolution::ScriptWithPathInfo(
            "theme/styles.php".to_owned(),
            "/moove/123/all".to_owned()
        )
    );
}

#[test]
fn path_info_split_requires_the_script_to_exist() {
    assert_eq!(
        Tree::at("/site").resolve("/theme/styles.php/moove/123/all", true),
        ScriptResolution::Fallback
    );
}

#[test]
fn resolves_subdirectory_index_for_trailing_slash() {
    let tree = Tree::at("/site").dir("/site/wp-admin").file("/site/wp-admin/index.php");
    assert_eq!(tree.resolve("/wp-admin/", true), script("wp-admin/index.php"));
}

#[test]
fn subdirectory_with_no_index_php_falls_back() {
    let tree = Tree::at("/site").dir("/site/empty");
    assert_eq!(tree.resolve("/empty/", true), ScriptResolution::Fallback);
}

#[test]
fn directory_without_trailing_slash_redirects() {
    let tree = Tree::at("/site").dir("/site/sub").file("/site/sub/index.php");
    assert_eq!(tree.resolve("/sub", true), ScriptResolution::DirectoryRedirect);
}

#[test]
fn directory_without_index_php_still_redirects() {
    let tree = Tree::at("/site").dir("/site/assets").file("/site/assets/index.html");
    assert_eq!(tree.resolve("/assets", true), ScriptResolution::DirectoryRedirect);
}

#[test]
fn symlinked_directory_escaping_document_root_is_not_a_redirect_candidate() {
    let tree = Tree::at("/site").dir("/outside/secrets").link("/site/sub", "/outside/secrets");
    assert_eq!(tree.resolve("/sub", true), ScriptResolution::Fallback);
}

#[test]
fn symlinked_directory_escaping_document_root_redirects_when_protection_off() {
    let tree = Tree::at("/site").dir("/outside/shared").link("/site/sub", "/outside/shared");
    assert_eq!(tree.resolve("/sub", false), ScriptResolution::DirectoryRedirect);
}

#[test]
fn missing_exact_file_falls_back() {
    assert_eq!(
        Tree::at("/site").resolve("/wp-login.php", true),
        ScriptResolution::Fallback
    );
}

#[test]
fn non_php_exact_match_falls_back() {
    let tree = Tree::at("/site").file("/site/app.css");
    assert_eq!(tree.resolve("/app.css", true), ScriptResolution::Fallback);
}

#[test]
fn root_path_resolves_to_root_index_php() {
    let tree = Tree::at("/site").file("/site/index.php");
    assert_eq!(tree.resolve("/", true), script("index.php"));
}

#[test]
fn symlinked_script_escaping_document_root_falls_back() {
    let tree = Tree::at("/site")
        .file("/outside/shell.php")
        .link("/site/wp-login.php", "/outside/shell.php");
    assert_eq!(tree.resolve("/wp-login.php", true), ScriptResolution::Fallback);
}

#[test]
fn symlinked_script_escaping_document_root_resolves_when_protection_off() {
    let tree = Tree::at("/site")
        .file("/outside/shared.php")
        .link("/site/wp-login.php", "/outside/shared.php");
    assert_eq!(tree.resolve("/wp-login.php", false), script("wp-login.php"));
}

#[test]
fn traversal_attempt_falls_back() {
    assert_eq!(
        Tree::at("/site").resolve("/../../etc/passwd", true),
        ScriptResolution::Fallback
    );
}

#[test]
fn rule_target_resolves_to_a_nested_front_controller() {
    let tree = Tree::at("/site").dir("/site/api").file("/site/api/index.php");
    assert!(tree.rule("api/index.php", true));
}

#[test]
fn rule_target_missing_or_not_php_is_none() {
    let tree = Tree::at("/site").file("/site/index.html");
    assert!(!tree.rule("api/index.php", true), "missing target");
    assert!(!tree.rule("index.html", true), "target is not PHP source");
}

#[test]
fn rule_target_escaping_document_root_is_refused_unless_protection_is_off() {
    let tree = Tree::at("/site")
        .file("/outside/shared.php")
        .link("/site/api.php", "/outside/shared.php");
    assert!(!tree.rule("api.php", true), "protection on refuses the escaping target");
    assert!(tree.rule("api.php", false), "protection off resolves it");
}

#[test]
fn a_missing_root_answers_nothing() {
    let tree = Tree::default().file("/site/index.php");
    assert_eq!(tree.resolve("/", true), ScriptResolution::Fallback);
    assert!(!tree.rule("index.php", true));
}

#[test]
fn a_directory_called_like_a_script_is_a_directory() {
    let tree = Tree::at("/site").dir("/site/odd.php");
    assert_eq!(tree.resolve("/odd.php", true), ScriptResolution::DirectoryRedirect);
    assert_eq!(tree.resolve("/odd.php/x", true), ScriptResolution::Fallback);
}

#[test]
fn a_file_shadows_a_split() {
    let tree = Tree::at("/site").file("/site/a.php").file("/site/a.php/b.php");
    assert_eq!(tree.resolve("/a.php/b.php", true), script("a.php/b.php"));
    assert_eq!(
        tree.resolve("/a.php/c", true),
        ScriptResolution::ScriptWithPathInfo("a.php".to_owned(), "/c".to_owned())
    );
}

#[test]
fn a_split_applies_to_directory_requests_too() {
    let tree = Tree::at("/site").file("/site/file.php");
    assert_eq!(
        tree.resolve("/file.php/dir/", true),
        ScriptResolution::ScriptWithPathInfo("file.php".to_owned(), "/dir/".to_owned())
    );
}

#[test]
fn the_first_question_is_for_the_root() {
    match resolve_script("/x", "/site/public", "/site", true, &Vec::new()) {
        Search::Ask(Probe::Canonicalize(path)) => assert_eq!(path, "/site"),
        other => panic!("expected a question, got {other:?}"),
    }
    let answers = vec![Answer::Path(Some("/real".to_owned()))];
    match resolve_script("/x", "/site/public", "/site", true, &answers) {
        Search::Ask(Probe::Locate { path, root }) => {
            assert_eq!(path, "/site/public/x");
            assert_eq!(root, "/real");
        }
        other => panic!("expected a question, got {other:?}"),
    }
}

#[test]
fn containment_goes_by_whole_components() {
    assert!(is_contained("/srv/app", "/srv/app"));
    assert!(is_contained("/srv/app/public/index.php", "/srv/app"));
    assert!(is_contained("/srv/app/x", "/srv/app/"));
    assert!(is_contained("/srv", "/"));
    assert!(!is_contained("/srv/app2/index.php", "/srv/app"));
    assert!(!is_contained("/srv", "/srv/app"));
    assert!(!is_contained("srv/app", "/srv"));
    assert!(!is_contained("/etc/passwd", "/srv/app"));
    assert!(is_contained("/srv/app", ""));
}

#[test]
fn a_path_is_contained_or_has_escaped() {
    match contain("/srv/app/x".to_owned(), "/srv/app") {
        Containment::Within(path) => assert_eq!(path, "/srv/app/x"),
        other => panic!("expected Within, got {other:?}"),
    }
    match contain("/srv/application".to_owned(), "/srv/app") {
        Containment::Escaped(path) => assert_eq!(path, "/srv/application"),
        other => panic!("expected Escaped, got {other:?}"),
    }
}
