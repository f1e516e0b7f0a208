use quota_tray::keyring::{
    current_attrs, get, is_object, item_properties, label, legacy_attrs, owner_wait, plain_secret,
    search_result, secret_to_key, Answer, Clear, Lookup, OwnerNews, OwnerWait, Store, StoreError,
    ATTR_APP_CURRENT,
};

fn items(names: &[&str]) -> Vec<String> {
    names.iter().map(|n| n.to_string()).collect()
}

#[test]
fn secret_with_trailing_newline_is_trimmed() {
    let key = secret_to_key(b"sk-abc123\n").unwrap();
    assert_eq!(key, "sk-abc123");
}

#[test]
fn secret_with_surrounding_whitespace_is_trimmed() {
    let key = secret_to_key(b"  sk-abc123\n").unwrap();
    assert_eq!(key, "sk-abc123");
}

#[test]
fn secret_empty_returns_none() {
    assert!(secret_to_key(b"").is_none());
    assert!(secret_to_key(b"\n\n").is_none());
    assert!(secret_to_key(b"   ").is_none());
}

#[test]
fn secret_non_utf8_returns_none() {
    assert!(secret_to_key(&[0xff, 0xfe, 0xfd]).is_none());
}

#[test]
fn env_var_with_trailing_newline_trimmed() {
    let trimmed = secret_to_key(b"sk-env-key\n").unwrap();
    assert_eq!(trimmed, "sk-env-key");
    assert_eq!(get(None, Some("sk-env-key\n")).as_deref(), Some("sk-env-key"));
}

#[test]
fn env_var_fallback_does_not_panic_with_daemon_reachable() {
    assert!(get(Some(b"sk-stored"), Some("sk-from-env")).is_some());
    assert!(get(None, Some("sk-from-env")).is_some());
}

#[test]
fn attributes_use_instance_application() {
    let attrs = current_attrs("");
    assert_eq!(attrs, (ATTR_APP_CURRENT, "llm-quota-tray".to_string()));
    let legacy = legacy_attrs();
    assert_eq!(legacy, (ATTR_APP_CURRENT, "minimax-quota".to_string()));
}

#[test]
fn label_uses_instance_basename() {
    let l = label("");
    assert!(
        l.ends_with(" API Key"),
        "label must end with ' API Key', got {l:?}"
    );
    let basename = &l[..l.len() - " API Key".len()];
    assert_eq!(
        basename, "llm-quota-tray",
        "default instance must have basename exactly 'llm-quota-tray'"
    );
    let named = label("codex");
    assert!(named.starts_with("llm-quota-tray-"));
    assert_eq!(named, "llm-quota-tray-codex API Key");
}

#[test]
fn stored_keys_win_over_the_environment() {
    assert_eq!(
        get(Some(b" sk-stored\n"), Some("sk-env")).as_deref(),
        Some("sk-stored")
    );
    assert_eq!(get(Some(b"  "), Some("sk-env")), None);
    assert_eq!(get(Some(&[0xff]), Some("sk-env")).as_deref(), Some("sk-env"));
    assert_eq!(get(None, None), None);
}

#[test]
fn non_ascii_white_space_is_trimmed_too() {
    let bytes = "\u{2003}schlüssel\u{a0}".as_bytes();
    assert_eq!(secret_to_key(bytes).as_deref(), Some("schlüssel"));
}

#[test]
fn secrets_travel_unencrypted() {
    let s = plain_secret("/session/1".to_string(), "clé");
    assert_eq!(s.session, "/session/1");
    assert!(s.parameters.is_empty());
    assert_eq!(s.value, "clé".as_bytes());
    assert_eq!(s.content_type, "text/plain");
}

#[test]
fn item_properties_name_label_and_type() {
    let p = item_properties("codex");
    assert_eq!(p.len(), 2);
    assert_eq!(p[0].0, "org.freedesktop.Secret.Item.Label");
    assert_eq!(p[0].1, "llm-quota-tray-codex API Key");
    assert_eq!(p[1].0, "org.freedesktop.Secret.Item.Type");
    assert_eq!(p[1].1, "org.freedesktop.Secret.Generic");
}

#[test]
fn search_lists_unlocked_items_first() {
    assert_eq!(search_result(items(&["/b"]), items(&["/a"])), items(&["/b", "/a"]));
    assert!(!is_object("/"));
    assert!(is_object("/a"));
}

#[test]
fn keyring_is_there_once_somebody_has_its_name() {
    assert_eq!(owner_wait(OwnerNews::HasOwner(true)), OwnerWait::Ready);
    assert_eq!(owner_wait(OwnerNews::HasOwner(false)), OwnerWait::Waiting);
    assert_eq!(owner_wait(OwnerNews::Changed(false)), OwnerWait::Waiting);
    assert_eq!(owner_wait(OwnerNews::Changed(true)), OwnerWait::Ready);
    assert_eq!(owner_wait(OwnerNews::Ended), OwnerWait::Gone);
}

fn unlocked(names: &[&str], prompt: &str) -> Answer {
    Answer::Unlocked {
        items: items(names),
        prompt: prompt.to_string(),
    }
}

#[test]
fn lookup_reads_the_first_own_item() {
    let s = Lookup::start().next(Answer::Found(items(&["/i/1", "/i/2"])));
    match &s {
        Lookup::OpenSession { found, legacy } => {
            assert_eq!(found.len(), 2);
            assert!(!legacy);
        }
        other => panic!("{other:?}"),
    }
    let s = s.next(Answer::Done).next(unlocked(&["/i/1", "/i/2"], "/"));
    match &s {
        Lookup::Read { item, legacy } => {
            assert_eq!(item, "/i/1");
            assert!(!legacy);
        }
        other => panic!("{other:?}"),
    }
    match s.next(Answer::Secret(b"k".to_vec())) {
        Lookup::Done { secret, legacy } => {
            assert_eq!(secret, Some(b"k".to_vec()));
            assert!(!legacy);
        }
        other => panic!("{other:?}"),
    }
}

#[test]
fn lookup_falls_back_to_old_items() {
    for first in [Answer::Found(vec![]), Answer::Failed] {
        let s = Lookup::start().next(first);
        assert!(matches!(s, Lookup::SearchLegacy));
        let s = s.next(Answer::Found(items(&["/old"]))).next(Answer::Done);
        let s = s.next(unlocked(&["/old"], "/prompt/1"));
        match &s {
            Lookup::Prompt { path, .. } => assert_eq!(path, "/prompt/1"),
            other => panic!("{other:?}"),
        }
        let s = s.next(Answer::PromptDone { dismissed: false });
        match s.next(Answer::Secret(vec![1])) {
            Lookup::Done { secret, legacy } => {
                assert_eq!(secret, Some(vec![1]));
                assert!(legacy);
            }
            other => panic!("{other:?}"),
        }
    }
}

fn found_nothing(s: Lookup) -> bool {
    matches!(s, Lookup::Done { secret: None, legacy: false })
}

#[test]
fn lookup_gives_up_on_failures() {
    assert!(found_nothing(Lookup::SearchLegacy.next(Answer::Found(vec![]))));
    assert!(found_nothing(Lookup::SearchLegacy.next(Answer::Failed)));
    let start = || Lookup::start().next(Answer::Found(items(&["/i"])));
    assert!(found_nothing(start().next(Answer::Failed)));
    let open = || start().next(Answer::Done);
    assert!(found_nothing(open().next(Answer::Failed)));
    assert!(found_nothing(open().next(unlocked(&[], "/"))));
    let asked = || open().next(unlocked(&["/i"], "/p"));
    assert!(found_nothing(asked().next(Answer::PromptDone { dismissed: true })));
    assert!(found_nothing(
        open()
            .next(unlocked(&[], "/p"))
            .next(Answer::PromptDone { dismissed: false })
    ));
    assert!(found_nothing(open().next(unlocked(&["/i"], "/")).next(Answer::Failed)));
}

fn stored(s: Store) -> Result<(), StoreError> {
    match s {
        Store::Done { stored } => stored,
        other => panic!("{other:?}"),
    }
}

fn created(item: &str, prompt: &str) -> Answer {
    Answer::Created {
        item: item.to_string(),
        new_prompt: prompt.to_string(),
    }
}

#[test]
fn storing_creates_and_deletes_old_items() {
    let s = Store::start()
        .next(Answer::Done)
        .next(Answer::Collection("/c/login".to_string()));
    match &s {
        Store::Create { collection } => assert_eq!(collection, "/c/login"),
        other => panic!("{other:?}"),
    }
    let s = s.next(created("/i/9", "/"));
    match &s {
        Store::SetAttributes { item } => assert_eq!(item, "/i/9"),
        other => panic!("{other:?}"),
    }
    let s = s.next(Answer::Done);
    assert!(matches!(s, Store::SearchLegacy));
    let s = s.next(Answer::Found(items(&["/old/1", "/old/2"])));
    assert!(matches!(s, Store::Delete { at: 0, .. }));
    let s = s.next(Answer::Failed);
    assert!(matches!(s, Store::Delete { at: 1, .. }));
    assert_eq!(stored(s.next(Answer::Done)), Ok(()));
}

#[test]
fn storing_reports_each_failure() {
    let err = |s: Store| stored(s).unwrap_err();
    assert_eq!(err(Store::start().next(Answer::Failed)), StoreError::OpenSession);
    let alias = || Store::start().next(Answer::Done);
    assert_eq!(err(alias().next(Answer::Failed)), StoreError::ReadAlias);
    let none = err(alias().next(Answer::Collection("/".to_string())));
    assert_eq!(none, StoreError::NoCollection);
    assert_eq!(
        none.message(),
        "no default collection; user has no Secret Service collection set up"
    );
    let create = || alias().next(Answer::Collection("/c".to_string()));
    assert_eq!(err(create().next(Answer::Failed)), StoreError::CreateItem);
    let prompt = || create().next(created("/i", "/p"));
    assert_eq!(
        err(prompt().next(Answer::PromptDone { dismissed: true })),
        StoreError::Dismissed
    );
    assert_eq!(StoreError::Dismissed.message(), "CreateItem prompt dismissed");
    assert_eq!(err(prompt().next(Answer::Failed)), StoreError::Prompt);
    let attributes = || prompt().next(Answer::PromptDone { dismissed: false });
    assert_eq!(err(attributes().next(Answer::Failed)), StoreError::SetAttributes);
    assert_eq!(stored(attributes().next(Answer::Done).next(Answer::Failed)), Ok(()));
}

#[test]
fn clearing_deletes_both_kinds_of_items() {
    let s = Clear::start()
        .next(Answer::Found(items(&["/a"])))
        .next(Answer::Found(items(&["/b"])));
    match &s {
        Clear::Delete { all, at } => {
            assert_eq!(all, &items(&["/a", "/b"]));
            assert_eq!(*at, 0);
        }
        other => panic!("{other:?}"),
    }
    let s = s.next(Answer::Done).next(Answer::Done);
    assert!(matches!(s, Clear::Done { cleared: true }));
    let s = Clear::start()
        .next(Answer::Found(vec![]))
        .next(Answer::Found(vec![]));
    assert!(matches!(s, Clear::Done { cleared: true }));
    assert!(matches!(
        Clear::start().next(Answer::Failed),
        Clear::Done { cleared: false }
    ));
}

#[test]
fn stored_keys_read_back() {
    for (entered, key) in [
        ("sk-123", Some("sk-123")),
        (" sk-123\n", Some("sk-123")),
        ("clé", Some("clé")),
        (" \n", None),
    ] {
        let secret = plain_secret("/session".to_string(), entered);
        assert_eq!(secret_to_key(&secret.value).as_deref(), key);
    }
}

#[test]
fn clearing_stops_at_a_failure() {
    let s = Clear::start().next(Answer::Found(items(&["/a", "/b"])));
    let s = s.next(Answer::Found(Vec::new()));
    let s = s.next(Answer::Done);
    assert!(matches!(s, Clear::Delete { at: 1, .. }));
    assert!(matches!(
        s.next(Answer::Failed),
        Clear::Done { cleared: false }
    ));
    assert!(matches!(
        Clear::start().next(Answer::Failed),
        Clear::Done { cleared: false }
    ));
}
