use scoop_cache::cache::{CacheEntry, CacheManager, CleanPlan};
use scoop_cache::naming::{is_cache_file_name, join, separators, split_cache_name};

fn listing(names: &[&str]) -> Vec<String> {
    names.iter().map(|s| s.to_string()).collect()
}

fn apps(es: &[CacheEntry]) -> Vec<(String, String, String)> {
    es.iter()
        .map(|e| (e.app_name().to_string(), e.version().to_string(), e.file_name().to_string()))
        .collect()
}

fn removed_paths(plan: CleanPlan) -> Vec<String> {
    match plan {
        CleanPlan::RemoveFiles(p) => p,
        CleanPlan::EmptyDir(_) => panic!("expected a list of files"),
    }
}

fn without(names: &[&str], dir: &str, removed: &[String]) -> Vec<String> {
    names
        .iter()
        .filter(|n| !removed.contains(&join(dir, n)))
        .map(|s| s.to_string())
        .collect()
}

const DIR: &str = "/scoop/cache";
const SCENARIO: [&str; 3] = ["curl#7.88#curl.tar.gz", "curl#7.86#curl.tar.gz", "wget#1.21#wget.tar.gz"];

#[test]
fn scenario_filter_clean_and_wipe() {
    let m = CacheManager::new(DIR.to_string());
    let l = listing(&SCENARIO);
    let curl = m.get(&l, "curl");
    assert_eq!(
        apps(&curl),
        vec![
            ("curl".to_string(), "7.88".to_string(), "curl.tar.gz".to_string()),
            ("curl".to_string(), "7.86".to_string(), "curl.tar.gz".to_string()),
        ]
    );
    assert_eq!(apps(&m.get(&l, "curl*")), apps(&curl));
    let removed = removed_paths(m.clean(&l, "curl"));
    assert_eq!(
        removed,
        vec![
            "/scoop/cache/curl#7.88#curl.tar.gz".to_string(),
            "/scoop/cache/curl#7.86#curl.tar.gz".to_string(),
        ]
    );
    let after = without(&SCENARIO, DIR, &removed);
    let left = m.get_all(&after);
    assert_eq!(apps(&left), vec![("wget".to_string(), "1.21".to_string(), "wget.tar.gz".to_string())]);
    match m.clean_all() {
        CleanPlan::EmptyDir(d) => assert_eq!(d, DIR),
        CleanPlan::RemoveFiles(_) => panic!("expected a full wipe"),
    }
    assert!(m.get_all(&Vec::new()).is_empty());
}

#[test]
fn entry_fields_from_name() {
    let e = CacheEntry::new(DIR, "7zip#23.01#https_7-zip.org_a_7z2301-x64.msi");
    assert_eq!(e.app_name(), "7zip");
    assert_eq!(e.version(), "23.01");
    assert_eq!(e.file_name(), "https_7-zip.org_a_7z2301-x64.msi");
    assert_eq!(e.path(), "/scoop/cache/7zip#23.01#https_7-zip.org_a_7z2301-x64.msi");
}

#[test]
fn descriptor_keeps_later_separators() {
    let (a, v, d) = split_cache_name("git#2.40.0_1#dl#part.7z");
    assert_eq!((a.as_str(), v.as_str(), d.as_str()), ("git", "2.40.0_1", "dl#part.7z"));
    assert_eq!(separators("git#2.40.0_1#dl#part.7z"), Some((3, 12)));
}

#[test]
fn naming_scheme_is_checked() {
    assert!(is_cache_file_name("a#1#x"));
    assert!(is_cache_file_name("a-b_c.d#1.0-rc_2#"));
    assert!(!is_cache_file_name("a b#1#x"));
    assert!(!is_cache_file_name("foo#1.0"));
    assert!(!is_cache_file_name("#1.0#x"));
    assert!(!is_cache_file_name("foo##x"));
    assert!(!is_cache_file_name("foo#1 0#x"));
    assert!(!is_cache_file_name(""));
    assert!(!is_cache_file_name("foo.download"));
    assert_eq!(separators("foo#1.0"), None);
}

#[test]
fn scan_skips_foreign_files() {
    let m = CacheManager::new(DIR.to_string());
    let l = listing(&["notes.txt", "curl#7.88#curl.tar.gz", "x y#1#z", "curl#7.88#curl.tar.gz.download"]);
    let all = m.get_all(&l);
    assert_eq!(all.len(), 2);
    assert_eq!(all[0].file_name(), "curl.tar.gz");
    assert_eq!(all[1].file_name(), "curl.tar.gz.download");
}

#[test]
fn star_selects_all() {
    let m = CacheManager::new(DIR.to_string());
    let l = listing(&SCENARIO);
    assert_eq!(apps(&m.get(&l, "*")), apps(&m.get_all(&l)));
    assert_eq!(m.get(&l, "*").len(), 3);
}

#[test]
fn prefix_and_star_agree() {
    let m = CacheManager::new(DIR.to_string());
    let l = listing(&["curl#1#a", "cu#2#b", "wget#3#c", "Curl#4#d"]);
    let cu = m.get(&l, "cu");
    assert_eq!(apps(&cu).iter().map(|t| t.0.clone()).collect::<Vec<_>>(), vec!["curl", "cu"]);
    assert_eq!(apps(&m.get(&l, "cu*")), apps(&cu));
    assert!(m.get(&l, "cu**").is_empty());
    assert!(m.get(&l, "curl#").is_empty());
    assert!(m.get(&l, "curlx").is_empty());
}

#[test]
fn empty_pattern_covers_every_query() {
    let m = CacheManager::new(DIR.to_string());
    let l = listing(&SCENARIO);
    let everything = apps(&m.get(&l, ""));
    assert_eq!(everything, apps(&m.get_all(&l)));
    for p in ["c", "curl", "w*", "zzz"] {
        for e in apps(&m.get(&l, p)) {
            assert!(everything.contains(&e));
        }
    }
}

#[test]
fn clean_one_keeps_the_others() {
    let m = CacheManager::new(DIR.to_string());
    let names = ["curl#7.88#curl.tar.gz", "wget#1.21#wget.tar.gz", "git#2.4#git.7z"];
    let l = listing(&names);
    let removed = removed_paths(m.clean(&l, "wget"));
    assert_eq!(removed, vec!["/scoop/cache/wget#1.21#wget.tar.gz".to_string()]);
    let left = apps(&m.get_all(&without(&names, DIR, &removed)));
    assert_eq!(left.iter().map(|t| t.0.clone()).collect::<Vec<_>>(), vec!["curl", "git"]);
}

#[test]
fn clean_star_is_a_wipe() {
    let m = CacheManager::new("C:\\scoop\\cache".to_string());
    match m.clean(&listing(&SCENARIO), "*") {
        CleanPlan::EmptyDir(d) => assert_eq!(d, "C:\\scoop\\cache"),
        CleanPlan::RemoveFiles(_) => panic!("expected a full wipe"),
    }
}

#[test]
fn only_one_trailing_star_is_stripped() {
    let m = CacheManager::new(DIR.to_string());
    let l = listing(&["curl#7.88#curl.tar.gz"]);
    assert!(m.get(&l, "curl**").is_empty());
    assert!(removed_paths(m.clean(&l, "curl**")).is_empty());
    assert_eq!(m.get(&l, "**").len(), 0);
    assert_eq!(m.get(&l, "curl*").len(), 1);
}

#[test]
fn clean_without_match_removes_nothing() {
    let m = CacheManager::new(DIR.to_string());
    assert!(removed_paths(m.clean(&listing(&SCENARIO), "nope")).is_empty());
}

#[test]
fn stage_paths_for_download() {
    let m = CacheManager::new(DIR.to_string());
    let s = m.create("foo#1.0#bar.zip");
    assert_eq!(s.path, "/scoop/cache/foo#1.0#bar.zip");
    assert_eq!(s.tmp_path, "/scoop/cache/foo#1.0#bar.zip.download");
    assert!(s.path.ends_with("foo#1.0#bar.zip"));
    assert!(s.path.starts_with(m.working_dir()));
}

#[test]
fn join_handles_separators() {
    assert_eq!(join("/a/", "f"), "/a/f");
    assert_eq!(join("C:\\a\\", "f"), "C:\\a\\f");
    assert_eq!(join("", "f"), "f");
    assert_eq!(join("/a", "f"), "/a/f");
    let m = CacheManager::new("/a/".to_string());
    assert_eq!(m.create("x").tmp_path, "/a/x.download");
}
