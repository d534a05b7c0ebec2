use baccounts::{Baccounts, Error, Profile, Site, SiteMap};

fn site(url: &str, name: &str, pass: &str, mail: &str) -> Site {
    Site {
        Url: url.to_string(),
        Name: name.to_string(),
        EncodedPass: pass.to_string(),
        Mail: mail.to_string(),
    }
}

fn two_example_sites() -> Profile {
    let mut profile = Profile::new(&"alice".to_string());
    profile
        .update_site(site("https://a.example.com/login", "a.example.com", "p1", "a@example.com"))
        .unwrap();
    profile
        .update_site(site("https://a.example.org/login", "a.example.org", "p2", "a@example.org"))
        .unwrap();
    profile
}

#[test]
fn find_site_refuses_ambiguous_query() {
    let profile = two_example_sites();
    let found = profile.find_site(&"a.example".to_string());
    assert_eq!(found, Err(Error::AmbiguousOrMissingSite { found: 2 }));
}

#[test]
fn find_site_refuses_query_without_match() {
    let profile = two_example_sites();
    let found = profile.find_site(&"nowhere.test".to_string());
    assert_eq!(found, Err(Error::AmbiguousOrMissingSite { found: 0 }));
}

#[test]
fn find_site_returns_unique_match() {
    let profile = two_example_sites();
    let found = profile.find_site(&"example.com".to_string()).unwrap();
    assert_eq!(found.Url, "https://a.example.com/login");
    assert_eq!(found.EncodedPass, "p1");
    assert_eq!(found.Mail, "a@example.com");
}

#[test]
fn find_site_matches_anywhere_in_url() {
    let profile = two_example_sites();
    assert_eq!(profile.find_site(&".org/log".to_string()).unwrap().Name, "a.example.org");
    assert_eq!(profile.find_site(&"https://a.example.org/login".to_string()).unwrap().Name, "a.example.org");
    assert!(profile.find_site(&"https://a.example.org/login/".to_string()).is_err());
}

#[test]
fn find_site_with_empty_query_matches_every_site() {
    let profile = two_example_sites();
    assert_eq!(
        profile.find_site(&String::new()),
        Err(Error::AmbiguousOrMissingSite { found: 2 })
    );
    let mut single = Profile::new(&"one".to_string());
    single.update_site(site("https://x.test/", "x.test", "p", "m")).unwrap();
    assert_eq!(single.find_site(&String::new()).unwrap().Name, "x.test");
}

#[test]
fn find_site_in_empty_profile_finds_nothing() {
    let profile = Profile::new(&"empty".to_string());
    assert_eq!(
        profile.find_site(&"x".to_string()),
        Err(Error::AmbiguousOrMissingSite { found: 0 })
    );
}

#[test]
fn find_site_is_case_sensitive() {
    let profile = two_example_sites();
    assert_eq!(
        profile.find_site(&"EXAMPLE.COM".to_string()),
        Err(Error::AmbiguousOrMissingSite { found: 0 })
    );
}

#[test]
fn matching_sites_lists_matches_in_order() {
    let profile = two_example_sites();
    let both = profile.matching_sites(&"a.example".to_string());
    assert_eq!(both.len(), 2);
    assert_eq!(both[0].Url, "https://a.example.com/login");
    assert_eq!(both[1].Url, "https://a.example.org/login");
    let one = profile.matching_sites(&"org".to_string());
    assert_eq!(one.len(), 1);
    assert_eq!(one[0].Url, "https://a.example.org/login");
    assert!(profile.matching_sites(&"net".to_string()).is_empty());
}

fn store_with_profiles() -> Baccounts {
    let mut store = Baccounts::new();
    let mut work = Profile::new(&"work".to_string());
    work.update_site(site("https://w.test/", "w.test", "pw", "w@w.test")).unwrap();
    let mut home = Profile::new(&"home".to_string());
    home.Default = true;
    let mut later = Profile::new(&"later".to_string());
    later.Default = true;
    store.Profiles.push(work);
    store.Profiles.push(home);
    store.Profiles.push(later);
    store
}

#[test]
fn find_profile_by_exact_name() {
    let store = store_with_profiles();
    let found = store.find_profile(&"work".to_string()).unwrap();
    assert_eq!(found.Name, "work");
    assert_eq!(found.Sites.len(), 1);
    assert_eq!(store.find_profile(&"later".to_string()).unwrap().Name, "later");
}

#[test]
fn find_profile_is_case_sensitive() {
    let store = store_with_profiles();
    assert!(store.find_profile(&"Work".to_string()).is_none());
    assert!(store.find_profile(&"wor".to_string()).is_none());
}

#[test]
fn find_profile_with_empty_name_gives_first_default() {
    let store = store_with_profiles();
    let found = store.find_profile(&String::new()).unwrap();
    assert_eq!(found.Name, "home");
}

#[test]
fn find_profile_with_empty_name_and_no_default_gives_none() {
    let mut store = Baccounts::new();
    store.Profiles.push(Profile::new(&"work".to_string()));
    store.Profiles.push(Profile::new(&String::new()));
    assert!(store.find_profile(&String::new()).is_none());
}

#[test]
fn find_profile_gives_first_of_duplicate_names() {
    let mut store = Baccounts::new();
    let mut first = Profile::new(&"dup".to_string());
    first.update_site(site("https://one.test/", "one.test", "p", "m")).unwrap();
    let second = Profile::new(&"dup".to_string());
    store.Profiles.push(first);
    store.Profiles.push(second);
    assert_eq!(store.find_profile(&"dup".to_string()).unwrap().Sites.len(), 1);
    assert_eq!(store.position_of(&"dup".to_string()), Some(0));
}

#[test]
fn find_profile_in_empty_store_gives_none() {
    let store = Baccounts::new();
    assert!(store.find_profile(&"any".to_string()).is_none());
    assert!(store.find_profile(&String::new()).is_none());
    assert_eq!(store.position_of(&"any".to_string()), None);
}

#[test]
fn position_of_ignores_the_default_flag() {
    let store = store_with_profiles();
    assert_eq!(store.position_of(&String::new()), None);
    assert_eq!(store.position_of(&"home".to_string()), Some(1));
    assert_eq!(store.position_of(&"later".to_string()), Some(2));
}

#[test]
fn site_map_keeps_insertion_order_and_finds_by_host() {
    let mut map = SiteMap::new();
    assert_eq!(map.len(), 0);
    map.insert("b.test".to_string(), site("https://b.test/", "b.test", "1", "m"));
    map.insert("a.test".to_string(), site("https://a.test/", "a.test", "2", "m"));
    map.insert("b.test".to_string(), site("https://b.test/new", "b.test", "3", "m"));
    assert_eq!(map.len(), 2);
    assert_eq!(map.host_at(0), "b.test");
    assert_eq!(map.host_at(1), "a.test");
    assert_eq!(map.site_at(0).EncodedPass, "3");
    assert_eq!(map.site_at(1).EncodedPass, "2");
    assert_eq!(map.get(&"a.test".to_string()).unwrap().Url, "https://a.test/");
    assert_eq!(map.get(&"b.test".to_string()).unwrap().Url, "https://b.test/new");
    assert!(map.get(&"c.test".to_string()).is_none());
    assert!(map.get(&"A.test".to_string()).is_none());
}

#[test]
fn site_map_clone_is_equal_and_independent() {
    let mut map = SiteMap::new();
    map.insert("a.test".to_string(), site("https://a.test/", "a.test", "1", "m"));
    let copy = map.clone();
    map.insert("a.test".to_string(), site("https://a.test/", "a.test", "2", "m"));
    map.insert("b.test".to_string(), site("https://b.test/", "b.test", "3", "m"));
    assert_eq!(copy.len(), 1);
    assert_eq!(copy.get(&"a.test".to_string()).unwrap().EncodedPass, "1");
    assert_eq!(map.len(), 2);
}
