use baccounts::text::decimal_string;
use baccounts::{Baccounts, Mismatch, Profile, Side, Site, SiteField};

fn site(url: &str, name: &str, pass: &str, mail: &str) -> Site {
    Site {
        Url: url.to_string(),
        Name: name.to_string(),
        EncodedPass: pass.to_string(),
        Mail: mail.to_string(),
    }
}

fn alice_store(secret: &str) -> Baccounts {
    let mut store = Baccounts::new();
    store.Version = "1".to_string();
    store.DefaultMail = "a@example.com".to_string();
    let mut alice = Profile::new(&"alice".to_string());
    alice.Default = true;
    alice
        .update_site(site("https://mail.example.com", "mail.example.com", secret, "a@example.com"))
        .unwrap();
    store.Profiles.push(alice);
    store
}

#[test]
fn diff_reports_changed_secret_by_byte_counts_only() {
    let a = alice_store("s1");
    let b = alice_store("s2");
    let mut report = Vec::new();
    assert_eq!(a.diff(&b, &mut report), 1);
    assert_eq!(
        report,
        vec![Mismatch::Secret {
            url: "https://mail.example.com".to_string(),
            left_bytes: 2,
            right_bytes: 2,
        }]
    );
    let line = report[0].message("left.asc", "right.asc");
    assert_eq!(line, "EncodedPass mismatch at https://mail.example.com: (2 bytes) != (2 bytes)");
    assert!(!line.contains("s1"));
    assert!(!line.contains("s2"));
}

#[test]
fn diff_of_store_with_itself_is_zero() {
    let a = alice_store("s1");
    let mut report = Vec::new();
    assert_eq!(a.diff(&a, &mut report), 0);
    assert!(report.is_empty());
    let same = alice_store("s1");
    assert_eq!(a.diff(&same, &mut report), 0);
    assert!(report.is_empty());
}

#[test]
fn diff_of_empty_stores_is_zero() {
    let mut report = Vec::new();
    assert_eq!(Baccounts::new().diff(&Baccounts::new(), &mut report), 0);
    assert!(report.is_empty());
}

#[test]
fn diff_counts_secret_bytes_not_characters() {
    let a = alice_store("pässwörd");
    let b = alice_store("");
    let mut report = Vec::new();
    assert_eq!(a.diff(&b, &mut report), 1);
    assert_eq!(
        report[0],
        Mismatch::Secret {
            url: "https://mail.example.com".to_string(),
            left_bytes: 10,
            right_bytes: 0,
        }
    );
    assert_eq!(
        report[0].message("l", "r"),
        "EncodedPass mismatch at https://mail.example.com: (10 bytes) != (0 bytes)"
    );
}

#[test]
fn diff_appends_to_report_and_counts_only_new_records() {
    let a = alice_store("s1");
    let b = alice_store("s2");
    let mut report = vec![Mismatch::MissingProfile { name: "kept".to_string(), absent: Side::Left }];
    assert_eq!(a.diff(&b, &mut report), 1);
    assert_eq!(report.len(), 2);
    assert_eq!(report[0], Mismatch::MissingProfile { name: "kept".to_string(), absent: Side::Left });
}

#[test]
fn diff_reports_settings_before_profiles() {
    let mut a = alice_store("s1");
    let b = alice_store("s2");
    a.Version = "2".to_string();
    a.DefaultMail = "other@example.com".to_string();
    let mut report = Vec::new();
    assert_eq!(a.diff(&b, &mut report), 3);
    assert_eq!(
        report,
        vec![
            Mismatch::Version { left: "2".to_string(), right: "1".to_string() },
            Mismatch::DefaultMail {
                left: "other@example.com".to_string(),
                right: "a@example.com".to_string(),
            },
            Mismatch::Secret {
                url: "https://mail.example.com".to_string(),
                left_bytes: 2,
                right_bytes: 2,
            },
        ]
    );
}

#[test]
fn diff_reports_profiles_missing_on_either_side() {
    let mut a = Baccounts::new();
    a.Profiles.push(Profile::new(&"both".to_string()));
    a.Profiles.push(Profile::new(&"only-left".to_string()));
    let mut b = Baccounts::new();
    b.Profiles.push(Profile::new(&"only-right".to_string()));
    b.Profiles.push(Profile::new(&"both".to_string()));
    let mut report = Vec::new();
    assert_eq!(a.diff(&b, &mut report), 2);
    assert_eq!(
        report,
        vec![
            Mismatch::MissingProfile { name: "only-left".to_string(), absent: Side::Right },
            Mismatch::MissingProfile { name: "only-right".to_string(), absent: Side::Left },
        ]
    );
}

#[test]
fn diff_compares_only_first_profile_of_a_name() {
    let mut a = Baccounts::new();
    let mut first = Profile::new(&"dup".to_string());
    first.update_site(site("https://x.test/", "x.test", "1", "m")).unwrap();
    let mut second = Profile::new(&"dup".to_string());
    second.update_site(site("https://y.test/", "y.test", "2", "m")).unwrap();
    a.Profiles.push(first.clone());
    a.Profiles.push(second);
    let mut b = Baccounts::new();
    b.Profiles.push(first);
    let mut report = Vec::new();
    assert_eq!(a.diff(&b, &mut report), 0);
    assert_eq!(b.diff(&a, &mut report), 0);
    assert!(report.is_empty());
}

#[test]
fn diff_ignores_name_order_of_profiles() {
    let mut a = Baccounts::new();
    a.Profiles.push(Profile::new(&"x".to_string()));
    a.Profiles.push(Profile::new(&"y".to_string()));
    let mut b = Baccounts::new();
    b.Profiles.push(Profile::new(&"y".to_string()));
    b.Profiles.push(Profile::new(&"x".to_string()));
    let mut report = Vec::new();
    assert_eq!(a.diff(&b, &mut report), 0);
}

#[test]
fn diff_does_not_compare_default_flags() {
    let mut a = Baccounts::new();
    a.Profiles.push(Profile::new(&"x".to_string()));
    let mut b = Baccounts::new();
    let mut x = Profile::new(&"x".to_string());
    x.Default = true;
    b.Profiles.push(x);
    let mut report = Vec::new();
    assert_eq!(a.diff(&b, &mut report), 0);
}

#[test]
fn diff_compares_profile_with_empty_name_by_name() {
    let mut a = Baccounts::new();
    a.Profiles.push(Profile::new(&String::new()));
    let mut b = Baccounts::new();
    let mut other = Profile::new(&"main".to_string());
    other.Default = true;
    b.Profiles.push(other);
    let mut report = Vec::new();
    assert_eq!(a.diff(&b, &mut report), 2);
    assert_eq!(
        report,
        vec![
            Mismatch::MissingProfile { name: String::new(), absent: Side::Right },
            Mismatch::MissingProfile { name: "main".to_string(), absent: Side::Left },
        ]
    );
    let mut again = Vec::new();
    assert_eq!(a.diff(&a, &mut again), 0);
}

#[test]
fn profile_diff_reports_sites_missing_on_either_side() {
    let mut left = Profile::new(&"p".to_string());
    left.update_site(site("https://both.test/", "both.test", "1", "m")).unwrap();
    left.update_site(site("https://left.test/", "left.test", "1", "m")).unwrap();
    let mut right = Profile::new(&"p".to_string());
    right.update_site(site("https://right.test/", "right.test", "1", "m")).unwrap();
    right.update_site(site("https://both.test/", "both.test", "1", "m")).unwrap();
    let mut report = Vec::new();
    assert_eq!(left.diff(&right, &mut report), 2);
    assert_eq!(
        report,
        vec![
            Mismatch::MissingSite { host: "left.test".to_string(), absent: Side::Right },
            Mismatch::MissingSite { host: "right.test".to_string(), absent: Side::Left },
        ]
    );
    assert_eq!(report[0].message("a.asc", "b.asc"), "Site left.test not found in b.asc");
    assert_eq!(report[1].message("a.asc", "b.asc"), "Site right.test not found in a.asc");
}

#[test]
fn profile_diff_pairs_sites_by_host() {
    let mut left = Profile::new(&"p".to_string());
    left.update_site(site("https://x.test/a", "x.test", "1", "m")).unwrap();
    left.update_site(site("https://y.test/", "y.test", "2", "m")).unwrap();
    let mut right = Profile::new(&"q".to_string());
    right.update_site(site("https://y.test/", "y.test", "2", "m")).unwrap();
    right.update_site(site("https://x.test/b", "x.test", "1", "m")).unwrap();
    let mut report = Vec::new();
    assert_eq!(left.diff(&right, &mut report), 1);
    assert_eq!(
        report,
        vec![Mismatch::Field {
            field: SiteField::Url,
            url: "https://x.test/a".to_string(),
            left: "https://x.test/a".to_string(),
            right: "https://x.test/b".to_string(),
        }]
    );
}

#[test]
fn profile_diff_with_itself_is_zero() {
    let mut p = Profile::new(&"p".to_string());
    p.update_site(site("https://x.test/a", "x.test", "1", "m")).unwrap();
    p.update_site(site("https://y.test/", "y.test", "2", "m")).unwrap();
    let mut report = Vec::new();
    assert_eq!(p.diff(&p, &mut report), 0);
    assert!(report.is_empty());
}

#[test]
fn site_diff_reports_each_differing_field_in_order() {
    let left = site("https://x.test/a", "x.test", "secret-one", "a@x.test");
    let right = site("https://x.test/b", "x", "two", "b@x.test");
    let mut report = Vec::new();
    assert_eq!(left.diff(&right, &mut report), 4);
    assert_eq!(
        report,
        vec![
            Mismatch::Field {
                field: SiteField::Url,
                url: "https://x.test/a".to_string(),
                left: "https://x.test/a".to_string(),
                right: "https://x.test/b".to_string(),
            },
            Mismatch::Field {
                field: SiteField::Name,
                url: "https://x.test/a".to_string(),
                left: "x.test".to_string(),
                right: "x".to_string(),
            },
            Mismatch::Secret {
                url: "https://x.test/a".to_string(),
                left_bytes: 10,
                right_bytes: 3,
            },
            Mismatch::Field {
                field: SiteField::Mail,
                url: "https://x.test/a".to_string(),
                left: "a@x.test".to_string(),
                right: "b@x.test".to_string(),
            },
        ]
    );
    for record in &report {
        let line = record.message("l", "r");
        assert!(!line.contains("secret-one"));
        assert!(!line.contains("two"));
    }
}

#[test]
fn site_diff_of_equal_sites_is_zero() {
    let s = site("https://x.test/a", "x.test", "1", "m");
    let mut report = Vec::new();
    assert_eq!(s.diff(&s.clone(), &mut report), 0);
    assert!(report.is_empty());
}

#[test]
fn site_diff_reports_single_field() {
    let left = site("https://x.test/", "x.test", "1", "a@x.test");
    let right = site("https://x.test/", "x.test", "1", "b@x.test");
    let mut report = Vec::new();
    assert_eq!(left.diff(&right, &mut report), 1);
    assert_eq!(report[0].message("l", "r"), "Mail mismatch at https://x.test/: a@x.test != b@x.test");
}

#[test]
fn message_of_each_kind_of_mismatch() {
    let version = Mismatch::Version { left: "1".to_string(), right: "2".to_string() };
    assert_eq!(version.message("l", "r"), "Version mismatch: 1 != 2");
    let mail = Mismatch::DefaultMail { left: "a@x".to_string(), right: "b@x".to_string() };
    assert_eq!(mail.message("l", "r"), "DefaultMail mismatch: a@x != b@x");
    let gone = Mismatch::MissingProfile { name: "work".to_string(), absent: Side::Right };
    assert_eq!(gone.message("one.asc", "two.asc"), "Profile work not found in two.asc");
    let gone = Mismatch::MissingProfile { name: "work".to_string(), absent: Side::Left };
    assert_eq!(gone.message("one.asc", "two.asc"), "Profile work not found in one.asc");
    let url = Mismatch::Field {
        field: SiteField::Url,
        url: "https://x.test/a".to_string(),
        left: "https://x.test/a".to_string(),
        right: "https://x.test/b".to_string(),
    };
    assert_eq!(
        url.message("l", "r"),
        "Url mismatch at https://x.test/a: https://x.test/a != https://x.test/b"
    );
    let name = Mismatch::Field {
        field: SiteField::Name,
        url: "https://x.test/".to_string(),
        left: "x".to_string(),
        right: "y".to_string(),
    };
    assert_eq!(name.message("l", "r"), "Name mismatch at https://x.test/: x != y");
    let secret = Mismatch::Secret {
        url: "https://x.test/".to_string(),
        left_bytes: 512,
        right_bytes: 83,
    };
    assert_eq!(
        secret.message("l", "r"),
        "EncodedPass mismatch at https://x.test/: (512 bytes) != (83 bytes)"
    );
}

#[test]
fn field_names_are_those_of_the_document() {
    assert_eq!(SiteField::Url.name(), "Url");
    assert_eq!(SiteField::Name.name(), "Name");
    assert_eq!(SiteField::Mail.name(), "Mail");
}

#[test]
fn decimal_string_writes_numbers_without_leading_zeros() {
    assert_eq!(decimal_string(0), "0");
    assert_eq!(decimal_string(7), "7");
    assert_eq!(decimal_string(9), "9");
    assert_eq!(decimal_string(10), "10");
    assert_eq!(decimal_string(83), "83");
    assert_eq!(decimal_string(100), "100");
    assert_eq!(decimal_string(1234567890), "1234567890");
    assert_eq!(decimal_string(usize::MAX), usize::MAX.to_string());
}

#[test]
fn diff_count_does_not_depend_on_order() {
    let x_old = site("https://x.test/", "x.test", "old", "m");
    let x_new = site("https://x.test/", "x.test", "newer", "n");
    let y = site("https://y.test/", "y.test", "1", "m");
    let z = site("https://z.test/", "z.test", "1", "m");

    let mut work = Profile::new(&"work".to_string());
    work.update_site(x_old.clone()).unwrap();
    work.update_site(y.clone()).unwrap();
    let mut work_reordered = Profile::new(&"work".to_string());
    work_reordered.update_site(y.clone()).unwrap();
    work_reordered.update_site(x_old.clone()).unwrap();
    let home = Profile::new(&"home".to_string());

    let mut other_work = Profile::new(&"work".to_string());
    other_work.update_site(z.clone()).unwrap();
    other_work.update_site(x_new.clone()).unwrap();
    let mut other_work_reordered = Profile::new(&"work".to_string());
    other_work_reordered.update_site(x_new).unwrap();
    other_work_reordered.update_site(z).unwrap();
    let away = Profile::new(&"away".to_string());

    let mut left = Baccounts::new();
    left.Profiles.push(work);
    left.Profiles.push(home.clone());
    let mut left_reordered = Baccounts::new();
    left_reordered.Profiles.push(home);
    left_reordered.Profiles.push(work_reordered);

    let mut right = Baccounts::new();
    right.Profiles.push(other_work);
    right.Profiles.push(away.clone());
    let mut right_reordered = Baccounts::new();
    right_reordered.Profiles.push(away);
    right_reordered.Profiles.push(other_work_reordered);

    let mut report = Vec::new();
    let count = left.diff(&right, &mut report);
    // secret and account of x.test, y.test only left, z.test only right,
    // home only left, away only right
    assert_eq!(count, 6);
    let mut reordered = Vec::new();
    assert_eq!(left_reordered.diff(&right_reordered, &mut reordered), 6);
    assert_eq!(left.diff(&right_reordered, &mut Vec::new()), 6);
    assert_eq!(left_reordered.diff(&right, &mut Vec::new()), 6);
    for record in &report {
        assert!(reordered.contains(record));
    }
}
