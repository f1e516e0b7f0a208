//! The key in the desktop's keyring: how it is named, looked up, stored and
//! removed.
//!
//! The keyring is asked elsewhere, one call at a time. Each conversation with it
//! is a state machine here: the state says which call comes next, and the answer
//! to that call leads to the next state.
use crate::instance::{basename, config_dir_basename, keyring_application};
use crate::text::{opt_str_view, opt_view, trim, trimmed};
use vstd::prelude::*;
use vstd::utf8::{decode_utf8, valid_utf8};

verus! {

pub const SS_BUS: &'static str = "org.freedesktop.secrets";

pub const SS_SERVICE_PATH: &'static str = "/org/freedesktop/secrets";

/// Name under which the keyring knows its default collection.
pub const DEFAULT_ALIAS: &'static str = "default";

pub const SERVICE_IFACE: &'static str = "org.freedesktop.Secret.Service";

pub const COLLECTION_IFACE: &'static str = "org.freedesktop.Secret.Collection";

pub const ITEM_IFACE: &'static str = "org.freedesktop.Secret.Item";

pub const PROMPT_IFACE: &'static str = "org.freedesktop.Secret.Prompt";

/// Attribute by which an item is found.
pub const ATTR_APP_CURRENT: &'static str = "application";

/// Value of the attribute on items from before the tray was renamed.
pub const ATTR_APP_LEGACY: &'static str = "minimax-quota";

/// Path that stands for no object at all.
pub const NO_OBJECT: &'static str = "/";

// ---------------------------------------------------------------------------
// Names
// ---------------------------------------------------------------------------

/// The attribute's value on the items of an instance.
pub fn current_application(instance: &str) -> (r: String)
    ensures
        r@ == basename(instance@),
{
    keyring_application(instance)
}

/// The attribute's value on items from before the tray was renamed.
pub fn legacy_application() -> (r: &'static str)
    ensures
        r@ == "minimax-quota"@,
{
    ATTR_APP_LEGACY
}

/// The item's label, as keyring viewers show it.
pub fn label(instance: &str) -> (r: String)
    ensures
        r@ == basename(instance@) + " API Key"@,
{
    config_dir_basename(instance).concat(" API Key")
}

/// The attributes of an instance's items: name and value.
pub fn current_attrs(instance: &str) -> (r: (&'static str, String))
    ensures
        r.0@ == "application"@,
        r.1@ == basename(instance@),
{
    (ATTR_APP_CURRENT, current_application(instance))
}

/// The attributes of items from before the tray was renamed: name and value.
pub fn legacy_attrs() -> (r: (&'static str, String))
    ensures
        r.0@ == "application"@,
        r.1@ == "minimax-quota"@,
{
    (ATTR_APP_CURRENT, legacy_application().to_owned())
}

/// The properties of a new item: name and value, in order.
pub fn item_properties(instance: &str) -> (r: Vec<(&'static str, String)>)
    ensures
        r@.len() == 2,
        r@[0].0@ == "org.freedesktop.Secret.Item.Label"@,
        r@[0].1@ == basename(instance@) + " API Key"@,
        r@[1].0@ == "org.freedesktop.Secret.Item.Type"@,
        r@[1].1@ == "org.freedesktop.Secret.Generic"@,
{
    let mut properties: Vec<(&'static str, String)> = Vec::new();
    properties.push(("org.freedesktop.Secret.Item.Label", label(instance)));
    properties.push(
        ("org.freedesktop.Secret.Item.Type", "org.freedesktop.Secret.Generic".to_owned()),
    );
    properties
}

/// A secret as the keyring takes and gives it.
#[derive(Debug)]
pub struct Secret {
    /// Path of the session that the secret travels in.
    pub session: String,
    /// Parameters of the encryption; none where there is no encryption.
    pub parameters: Vec<u8>,
    pub value: Vec<u8>,
    pub content_type: String,
}

/// An unencrypted secret.
pub fn plain_secret(session: String, value: &str) -> (r: Secret)
    ensures
        r.session == session,
        r.parameters@.len() == 0,
        r.value@ == vstd::utf8::encode_utf8(value@),
        r.content_type@ == "text/plain"@,
{
    Secret {
        session,
        parameters: Vec::new(),
        value: vstd::slice::slice_to_vec(value.as_bytes()),
        content_type: "text/plain".to_owned(),
    }
}

// ---------------------------------------------------------------------------
// From bytes to a key
// ---------------------------------------------------------------------------

/// The key in a text: without surrounding white space, and none where nothing is
/// left.
pub open spec fn key_in(text: Seq<char>) -> Option<Seq<char>> {
    if trimmed(text).len() == 0 {
        None
    } else {
        Some(trimmed(text))
    }
}

/// The key in bytes: none where they are no text.
pub open spec fn key_of(bytes: Seq<u8>) -> Option<Seq<char>> {
    if valid_utf8(bytes) {
        key_in(decode_utf8(bytes))
    } else {
        None
    }
}

/// `String::from_utf8` succeeds exactly on well-formed UTF-8 and decodes it.
#[verifier::external_body]
fn text_from_utf8(bytes: &[u8]) -> (r: Option<String>)
    ensures
        match r {
            Some(s) => valid_utf8(bytes@) && s@ == decode_utf8(bytes@),
            None => !valid_utf8(bytes@),
        },
{
    String::from_utf8(bytes.to_vec()).ok()
}

fn text_to_key(text: &str) -> (r: Option<String>)
    ensures
        opt_view(r) == key_in(text@),
{
    let key = trim(text);
    if key.as_str().is_empty() {
        None
    } else {
        Some(key)
    }
}

/// The key in a stored secret.
pub fn secret_to_key(bytes: &[u8]) -> (r: Option<String>)
    ensures
        opt_view(r) == key_of(bytes@),
{
    match text_from_utf8(bytes) {
        Some(text) => text_to_key(text.as_str()),
        None => None,
    }
}

/// The key in use: the keyring's where it holds a text, else the environment's.
pub open spec fn key_in_use(stored: Option<Seq<u8>>, env: Option<Seq<char>>) -> Option<Seq<char>> {
    match stored {
        Some(bytes) if valid_utf8(bytes) => key_of(bytes),
        _ => match env {
            Some(text) => key_in(text),
            None => None,
        },
    }
}

/// The bytes of an optional secret.
pub open spec fn opt_bytes(b: Option<&[u8]>) -> Option<Seq<u8>> {
    match b {
        Some(x) => Some(x@),
        None => None,
    }
}

/// The key in use.
pub fn get(stored: Option<&[u8]>, env: Option<&str>) -> (r: Option<String>)
    ensures
        opt_view(r) == key_in_use(opt_bytes(stored), opt_str_view(env)),
{
    if let Some(bytes) = stored {
        if let Some(text) = text_from_utf8(bytes) {
            return text_to_key(text.as_str());
        }
    }
    match env {
        Some(text) => text_to_key(text),
        None => None,
    }
}

// ---------------------------------------------------------------------------
// Answers of the keyring
// ---------------------------------------------------------------------------

/// What the keyring answered to a call.
#[derive(Debug)]
pub enum Answer {
    /// The call failed.
    Failed,
    /// The call succeeded, with nothing to report.
    Done,
    /// Items that a search found, unlocked ones first.
    Found(Vec<String>),
    /// Path of the collection that an alias stands for.
    Collection(String),
    /// Path of a new item, and of the prompt that has to be answered first.
    Created { item: String, new_prompt: String },
    /// Items that are unlocked, and path of the prompt for the others.
    Unlocked { items: Vec<String>, prompt: String },
    /// A prompt was answered.
    PromptDone { dismissed: bool },
    /// Bytes of a secret.
    Secret(Vec<u8>),
}

/// What a search found: the unlocked items, then the locked ones.
pub fn search_result(unlocked: Vec<String>, locked: Vec<String>) -> (r: Vec<String>)
    ensures
        r@ == unlocked@ + locked@,
{
    let mut all = unlocked;
    let mut rest = locked;
    all.append(&mut rest);
    all
}

/// Whether a path stands for an object.
pub fn is_object(path: &str) -> (r: bool)
    ensures
        r == (path@ != "/"@),
{
    !crate::text::same(path, NO_OBJECT)
}

// ---------------------------------------------------------------------------
// Waiting for the keyring
// ---------------------------------------------------------------------------

/// What is heard of the keyring while it starts.
#[derive(Debug, Clone, Copy, PartialEq, Eq, Structural)]
pub enum OwnerNews {
    /// Whether the keyring's name is taken, when asked.
    HasOwner(bool),
    /// The name changed hands; whether somebody has it now.
    Changed(bool),
    /// There will be no more news.
    Ended,
}

/// Whether the keyring is there.
#[derive(Debug, Clone, Copy, PartialEq, Eq, Structural)]
pub enum OwnerWait {
    Waiting,
    Ready,
    Gone,
}

/// Whether the keyring is there, after some news: it is as soon as somebody has
/// its name.
pub fn owner_wait(news: OwnerNews) -> (r: OwnerWait)
    ensures
        r == (match news {
            OwnerNews::HasOwner(taken) => if taken {
                OwnerWait::Ready
            } else {
                OwnerWait::Waiting
            },
            OwnerNews::Changed(taken) => if taken {
                OwnerWait::Ready
            } else {
                OwnerWait::Waiting
            },
            OwnerNews::Ended => OwnerWait::Gone,
        }),
{
    match news {
        OwnerNews::HasOwner(taken) => if taken {
            OwnerWait::Ready
        } else {
            OwnerWait::Waiting
        },
        OwnerNews::Changed(taken) => if taken {
            OwnerWait::Ready
        } else {
            OwnerWait::Waiting
        },
        OwnerNews::Ended => OwnerWait::Gone,
    }
}

// ---------------------------------------------------------------------------
// Looking the key up
// ---------------------------------------------------------------------------

/// Where a lookup stands; each state but the last waits for one answer.
#[derive(Debug)]
pub enum Lookup {
    /// Search the instance's items.
    Search,
    /// Search the items from before the rename.
    SearchLegacy,
    /// Open a session to read one of these items.
    OpenSession { found: Vec<String>, legacy: bool },
    /// Unlock these items.
    Unlock { found: Vec<String>, legacy: bool },
    /// Wait for the prompt that unlocks them.
    Prompt { path: String, item: String, any_unlocked: bool, legacy: bool },
    /// Read this item.
    Read { item: String, legacy: bool },
    /// The secret, where there is one, and whether it was found under the old
    /// name.
    Done { secret: Option<Vec<u8>>, legacy: bool },
}

/// Where a lookup that found nothing ends.
pub open spec fn nothing_found() -> Lookup {
    Lookup::Done { secret: None, legacy: false }
}

/// Where a lookup goes on once a search is over.
pub open spec fn after_search(found: Vec<String>, legacy: bool) -> Lookup {
    if found@.len() > 0 {
        Lookup::OpenSession { found, legacy }
    } else if legacy {
        nothing_found()
    } else {
        Lookup::SearchLegacy
    }
}

/// Where a lookup goes on once the items are unlocked.
pub open spec fn after_unlock(item: String, any_unlocked: bool, legacy: bool) -> Lookup {
    if any_unlocked {
        Lookup::Read { item, legacy }
    } else {
        nothing_found()
    }
}

/// Where a lookup goes on after an answer.
pub open spec fn lookup_next(s: Lookup, a: Answer) -> Lookup {
    match (s, a) {
        (Lookup::Search, Answer::Found(items)) => after_search(items, false),
        (Lookup::Search, _) => Lookup::SearchLegacy,
        (Lookup::SearchLegacy, Answer::Found(items)) => after_search(items, true),
        (Lookup::OpenSession { found, legacy }, Answer::Done) => Lookup::Unlock { found, legacy },
        (
            Lookup::Unlock { found, legacy },
            Answer::Unlocked { items, prompt },
        ) => if found@.len() == 0 {
            nothing_found()
        } else if prompt@ != "/"@ {
            Lookup::Prompt {
                path: prompt,
                item: found@[0],
                any_unlocked: items@.len() > 0,
                legacy,
            }
        } else {
            after_unlock(found@[0], items@.len() > 0, legacy)
        },
        (
            Lookup::Prompt { path, item, any_unlocked, legacy },
            Answer::PromptDone { dismissed },
        ) => if dismissed {
            nothing_found()
        } else {
            after_unlock(item, any_unlocked, legacy)
        },
        (Lookup::Read { item, legacy }, Answer::Secret(bytes)) => Lookup::Done {
            secret: Some(bytes),
            legacy,
        },
        (Lookup::Done { secret, legacy }, _) => Lookup::Done { secret, legacy },
        _ => nothing_found(),
    }
}

impl Lookup {
    /// A lookup begins with the instance's own items.
    pub fn start() -> (r: Lookup)
        ensures
            r == Lookup::Search,
    {
        Lookup::Search
    }

    fn searched(found: Vec<String>, legacy: bool) -> (r: Lookup)
        ensures
            r == after_search(found, legacy),
    {
        if found.len() > 0 {
            Lookup::OpenSession { found, legacy }
        } else if legacy {
            Lookup::Done { secret: None, legacy: false }
        } else {
            Lookup::SearchLegacy
        }
    }

    fn unlocked(item: String, any_unlocked: bool, legacy: bool) -> (r: Lookup)
        ensures
            r == after_unlock(item, any_unlocked, legacy),
    {
        if any_unlocked {
            Lookup::Read { item, legacy }
        } else {
            Lookup::Done { secret: None, legacy: false }
        }
    }

    /// Where a lookup goes on after an answer.
    pub fn next(self, answer: Answer) -> (r: Lookup)
        ensures
            r == lookup_next(self, answer),
    {
        match (self, answer) {
            (Lookup::Search, Answer::Found(items)) => Lookup::searched(items, false),
            (Lookup::Search, _) => Lookup::SearchLegacy,
            (Lookup::SearchLegacy, Answer::Found(items)) => Lookup::searched(items, true),
            (Lookup::OpenSession { found, legacy }, Answer::Done) => Lookup::Unlock {
                found,
                legacy,
            },
            (Lookup::Unlock { found, legacy }, Answer::Unlocked { items, prompt }) => {
                if found.len() == 0 {
                    Lookup::Done { secret: None, legacy: false }
                } else if is_object(prompt.as_str()) {
                    Lookup::Prompt {
                        path: prompt,
                        item: found[0].clone(),
                        any_unlocked: items.len() > 0,
                        legacy,
                    }
                } else {
                    Lookup::unlocked(found[0].clone(), items.len() > 0, legacy)
                }
            },
            (
                Lookup::Prompt { path, item, any_unlocked, legacy },
                Answer::PromptDone { dismissed },
            ) => {
                if dismissed {
                    Lookup::Done { secret: None, legacy: false }
                } else {
                    Lookup::unlocked(item, any_unlocked, legacy)
                }
            },
            (Lookup::Read { item, legacy }, Answer::Secret(bytes)) => Lookup::Done {
                secret: Some(bytes),
                legacy,
            },
            (Lookup::Done { secret, legacy }, _) => Lookup::Done { secret, legacy },
            _ => Lookup::Done { secret: None, legacy: false },
        }
    }
}

/// How many answers a lookup still waits for, at most.
pub open spec fn lookup_steps(s: Lookup) -> nat {
    match s {
        Lookup::Search => 6,
        Lookup::SearchLegacy => 5,
        Lookup::OpenSession { .. } => 4,
        Lookup::Unlock { .. } => 3,
        Lookup::Prompt { .. } => 2,
        Lookup::Read { .. } => 1,
        Lookup::Done { .. } => 0,
    }
}

/// Every answer brings a lookup closer to its end.
pub proof fn law_lookup_ends(s: Lookup, a: Answer)
    requires
        !(s is Done),
    ensures
        lookup_steps(lookup_next(s, a)) < lookup_steps(s),
{
}

/// The items from before the rename are searched only where the instance has none
/// of its own.
pub proof fn law_own_items_come_first(a: Answer)
    ensures
        lookup_next(Lookup::Search, a) is SearchLegacy <==> !(a matches Answer::Found(
            items,
        ) && items@.len() > 0),
        a matches Answer::Found(items) ==> items@.len() > 0 ==> lookup_next(Lookup::Search, a) == (
        Lookup::OpenSession { found: items, legacy: false }),
{
}

/// An item is read only once some item is unlocked and no prompt was dismissed.
pub proof fn law_only_unlocked_items_are_read(s: Lookup, a: Answer)
    requires
        lookup_next(s, a) is Read,
    ensures
        match (s, a) {
            (Lookup::Unlock { .. }, Answer::Unlocked { items, .. }) => items@.len() > 0,
            (
                Lookup::Prompt { any_unlocked, .. },
                Answer::PromptDone { dismissed },
            ) => any_unlocked && !dismissed,
            _ => false,
        },
{
}

// ---------------------------------------------------------------------------
// Storing the key
// ---------------------------------------------------------------------------

/// Why a key was not stored.
#[derive(Debug, Clone, Copy, PartialEq, Eq, Structural)]
pub enum StoreError {
    OpenSession,
    ReadAlias,
    NoCollection,
    CreateItem,
    Prompt,
    Dismissed,
    SetAttributes,
}

impl StoreError {
    /// The error as text.
    pub open spec fn text(self) -> Seq<char> {
        match self {
            StoreError::OpenSession => "OpenSession"@,
            StoreError::ReadAlias => "ReadAlias(\"default\")"@,
            StoreError::NoCollection => "no default collection; user has no Secret Service collection set up"@,
            StoreError::CreateItem => "CreateItem"@,
            StoreError::Prompt => "prompt Completed stream ended unexpectedly"@,
            StoreError::Dismissed => "CreateItem prompt dismissed"@,
            StoreError::SetAttributes => "set Item.Attributes (current)"@,
        }
    }

    /// The error as text.
    pub fn message(self) -> (r: &'static str)
        ensures
            r@ == self.text(),
    {
        match self {
            StoreError::OpenSession => "OpenSession",
            StoreError::ReadAlias => "ReadAlias(\"default\")",
            StoreError::NoCollection => "no default collection; user has no Secret Service collection set up",
            StoreError::CreateItem => "CreateItem",
            StoreError::Prompt => "prompt Completed stream ended unexpectedly",
            StoreError::Dismissed => "CreateItem prompt dismissed",
            StoreError::SetAttributes => "set Item.Attributes (current)",
        }
    }
}

/// Where the storing of a key stands; each state but the last waits for one
/// answer.
#[derive(Debug)]
pub enum Store {
    OpenSession,
    /// Ask for the default collection.
    ReadAlias,
    /// Create the item in this collection, replacing an equal one.
    Create { collection: String },
    /// Wait for the prompt that creates it.
    Prompt { path: String, item: String },
    /// Give the item the instance's attributes.
    SetAttributes { item: String },
    /// Search items from before the rename.
    SearchLegacy,
    /// Delete the item at `at`, then those behind it.
    Delete { stale: Vec<String>, at: usize },
    /// Whether the key is stored.
    Done { stored: Result<(), StoreError> },
}

/// Where storing goes on with deleting old items.
pub open spec fn deleting(stale: Vec<String>, at: int) -> Store {
    if at < stale@.len() {
        Store::Delete { stale, at: at as usize }
    } else {
        Store::Done { stored: Ok(()) }
    }
}

/// Where storing goes on after an answer. Once the item has its attributes the
/// key is stored: old items that cannot be found or deleted do not undo that.
pub open spec fn store_next(s: Store, a: Answer) -> Store {
    match s {
        Store::OpenSession => match a {
            Answer::Done => Store::ReadAlias,
            _ => Store::Done { stored: Err(StoreError::OpenSession) },
        },
        Store::ReadAlias => match a {
            Answer::Collection(path) => if path@ == "/"@ {
                Store::Done { stored: Err(StoreError::NoCollection) }
            } else {
                Store::Create { collection: path }
            },
            _ => Store::Done { stored: Err(StoreError::ReadAlias) },
        },
        Store::Create { collection } => match a {
            Answer::Created { item, new_prompt } => if new_prompt@ == "/"@ {
                Store::SetAttributes { item }
            } else {
                Store::Prompt { path: new_prompt, item }
            },
            _ => Store::Done { stored: Err(StoreError::CreateItem) },
        },
        Store::Prompt { path, item } => match a {
            Answer::PromptDone { dismissed } => if dismissed {
                Store::Done { stored: Err(StoreError::Dismissed) }
            } else {
                Store::SetAttributes { item }
            },
            _ => Store::Done { stored: Err(StoreError::Prompt) },
        },
        Store::SetAttributes { item } => match a {
            Answer::Done => Store::SearchLegacy,
            _ => Store::Done { stored: Err(StoreError::SetAttributes) },
        },
        Store::SearchLegacy => match a {
            Answer::Found(stale) => deleting(stale, 0),
            _ => Store::Done { stored: Ok(()) },
        },
        Store::Delete { stale, at } => deleting(stale, at + 1),
        Store::Done { stored } => Store::Done { stored },
    }
}

impl Store {
    /// Storing begins with a session.
    pub fn start() -> (r: Store)
        ensures
            r == Store::OpenSession,
    {
        Store::OpenSession
    }

    /// Where storing goes on after an answer.
    pub fn next(self, answer: Answer) -> (r: Store)
        ensures
            r == store_next(self, answer),
    {
        match self {
            Store::OpenSession => match answer {
                Answer::Done => Store::ReadAlias,
                _ => Store::Done { stored: Err(StoreError::OpenSession) },
            },
            Store::ReadAlias => match answer {
                Answer::Collection(path) => {
                    if is_object(path.as_str()) {
                        Store::Create { collection: path }
                    } else {
                        Store::Done { stored: Err(StoreError::NoCollection) }
                    }
                },
                _ => Store::Done { stored: Err(StoreError::ReadAlias) },
            },
            Store::Create { collection: _ } => match answer {
                Answer::Created { item, new_prompt } => {
                    if is_object(new_prompt.as_str()) {
                        Store::Prompt { path: new_prompt, item }
                    } else {
                        Store::SetAttributes { item }
                    }
                },
                _ => Store::Done { stored: Err(StoreError::CreateItem) },
            },
            Store::Prompt { path: _, item } => match answer {
                Answer::PromptDone { dismissed } => {
                    if dismissed {
                        Store::Done { stored: Err(StoreError::Dismissed) }
                    } else {
                        Store::SetAttributes { item }
                    }
                },
                _ => Store::Done { stored: Err(StoreError::Prompt) },
            },
            Store::SetAttributes { item: _ } => match answer {
                Answer::Done => Store::SearchLegacy,
                _ => Store::Done { stored: Err(StoreError::SetAttributes) },
            },
            Store::SearchLegacy => match answer {
                Answer::Found(stale) => {
                    if stale.len() > 0 {
                        Store::Delete { stale, at: 0 }
                    } else {
                        Store::Done { stored: Ok(()) }
                    }
                },
                _ => Store::Done { stored: Ok(()) },
            },
            Store::Delete { stale, at } => {
                if at < stale.len() && at + 1 < stale.len() {
                    Store::Delete { stale, at: at + 1 }
                } else {
                    Store::Done { stored: Ok(()) }
                }
            },
            Store::Done { stored } => Store::Done { stored },
        }
    }
}

/// How far the storing of a key still has to go: the state's place, then the old
/// items left.
pub open spec fn store_steps(s: Store) -> (nat, nat) {
    match s {
        Store::OpenSession => (7, 0),
        Store::ReadAlias => (6, 0),
        Store::Create { .. } => (5, 0),
        Store::Prompt { .. } => (4, 0),
        Store::SetAttributes { .. } => (3, 0),
        Store::SearchLegacy => (2, 0),
        Store::Delete { stale, at } => (
            1,
            if at < stale@.len() {
                (stale@.len() - at) as nat
            } else {
                0
            },
        ),
        Store::Done { .. } => (0, 0),
    }
}

/// Every answer brings the storing of a key closer to its end.
pub proof fn law_storing_ends(s: Store, a: Answer)
    requires
        !(s is Done),
    ensures
        ({
            let before = store_steps(s);
            let after = store_steps(store_next(s, a));
            after.0 < before.0 || (after.0 == before.0 && after.1 < before.1)
        }),
{
    if let Store::Delete { stale, at } = s {
        assert(stale@.len() == stale.len());
    }
}

/// A key counts as stored exactly from the moment its item has its attributes:
/// no later answer turns that into a failure.
pub proof fn law_stored_stays_stored(s: Store, a: Answer)
    requires
        s is SearchLegacy || s is Delete || s == (Store::Done { stored: Ok(()) }),
    ensures
        ({
            let t = store_next(s, a);
            t is Delete || t == (Store::Done { stored: Ok(()) })
        }),
{
}

// ---------------------------------------------------------------------------
// Removing the key
// ---------------------------------------------------------------------------

/// Where the removal of a key stands; each state but the last waits for one
/// answer.
#[derive(Debug)]
pub enum Clear {
    Search,
    SearchLegacy { own: Vec<String> },
    /// Delete the item at `at`, then those behind it.
    Delete { all: Vec<String>, at: usize },
    /// Whether every item is gone.
    Done { cleared: bool },
}

/// Whether a removal goes on in `r` after an answer.
pub open spec fn clears(s: Clear, a: Answer, r: Clear) -> bool {
    match s {
        Clear::Search => match a {
            Answer::Found(own) => r == (Clear::SearchLegacy { own }),
            _ => r == (Clear::Done { cleared: false }),
        },
        Clear::SearchLegacy { own } => match a {
            Answer::Found(old_items) => if own@.len() + old_items@.len() == 0 {
                r == (Clear::Done { cleared: true })
            } else {
                r matches Clear::Delete { all, at } && all@ == own@ + old_items@ && at == 0
            },
            _ => r == (Clear::Done { cleared: false }),
        },
        Clear::Delete { all, at } => if !(a is Done) {
            r == (Clear::Done { cleared: false })
        } else if at + 1 < all@.len() {
            r == (Clear::Delete { all, at: (at + 1) as usize })
        } else {
            r == (Clear::Done { cleared: true })
        },
        Clear::Done { cleared } => r == s,
    }
}

impl Clear {
    /// A removal begins with the instance's own items.
    pub fn start() -> (r: Clear)
        ensures
            r == Clear::Search,
    {
        Clear::Search
    }

    /// Where a removal goes on after an answer: both kinds of items are searched,
    /// then every item found is deleted.
    pub fn next(self, answer: Answer) -> (r: Clear)
        ensures
            clears(self, answer, r),
    {
        match self {
            Clear::Search => match answer {
                Answer::Found(own) => Clear::SearchLegacy { own },
                _ => Clear::Done { cleared: false },
            },
            Clear::SearchLegacy { own } => match answer {
                Answer::Found(old_items) => {
                    let all = search_result(own, old_items);
                    if all.len() == 0 {
                        Clear::Done { cleared: true }
                    } else {
                        Clear::Delete { all, at: 0 }
                    }
                },
                _ => Clear::Done { cleared: false },
            },
            Clear::Delete { all, at } => match answer {
                Answer::Done => {
                    if at < all.len() && at + 1 < all.len() {
                        Clear::Delete { all, at: at + 1 }
                    } else {
                        Clear::Done { cleared: true }
                    }
                },
                _ => Clear::Done { cleared: false },
            },
            Clear::Done { cleared } => Clear::Done { cleared },
        }
    }
}

/// How far a removal still has to go: the state's place, then the items left.
pub open spec fn clear_steps(s: Clear) -> (nat, nat) {
    match s {
        Clear::Search => (3, 0),
        Clear::SearchLegacy { .. } => (2, 0),
        Clear::Delete { all, at } => (
            1,
            if at < all@.len() {
                (all@.len() - at) as nat
            } else {
                0
            },
        ),
        Clear::Done { .. } => (0, 0),
    }
}

/// Every answer brings a removal closer to its end.
pub proof fn law_clearing_ends(s: Clear, a: Answer, r: Clear)
    requires
        !(s is Done),
        clears(s, a, r),
    ensures
        ({
            let before = clear_steps(s);
            let after = clear_steps(r);
            after.0 < before.0 || (after.0 == before.0 && after.1 < before.1)
        }),
{
    if let Clear::Delete { all, at } = s {
        assert(all@.len() == all.len());
    }
}

/// An item that is not deleted is reported: a removal that is deleting says that
/// every item is gone only once the last one is.
pub proof fn law_cleared_means_all_deleted(s: Clear, a: Answer, r: Clear)
    requires
        clears(s, a, r),
        s is Delete,
        r == (Clear::Done { cleared: true }),
    ensures
        a is Done,
        s matches Clear::Delete { all, at } && at + 1 >= all@.len(),
{
}

/// Reading gives back what was stored, without the white space around it; and what
/// a user entered reads back as the key in it.
pub proof fn law_a_stored_key_reads_back(value: Seq<char>)
    ensures
        key_of(vstd::utf8::encode_utf8(value)) == key_in(value),
        key_of(vstd::utf8::encode_utf8(trimmed(value))) == key_in(value),
{
    vstd::utf8::encode_utf8_valid_utf8(value);
    vstd::utf8::encode_utf8_decode_utf8(value);
    vstd::utf8::encode_utf8_valid_utf8(trimmed(value));
    vstd::utf8::encode_utf8_decode_utf8(trimmed(value));
    crate::text::lemma_trimmed_ends(value);
    assert(trimmed(trimmed(value)) == trimmed(value));
}

/// A key never carries surrounding white space and is never empty.
pub proof fn law_keys_are_trimmed(bytes: Seq<u8>)
    ensures
        key_of(bytes) matches Some(k) ==> k.len() > 0 && !crate::text::is_white(k[0])
            && !crate::text::is_white(k.last()),
{
    if valid_utf8(bytes) {
        crate::text::lemma_trimmed_ends(decode_utf8(bytes));
    }
}

/// The key in use is the keyring's, without white space around it, where the keyring
/// holds a text; only without one it is the environment's. A blank text is no key.
pub proof fn law_the_keyring_comes_before_the_environment(
    stored: Seq<u8>,
    env: Option<Seq<char>>,
)
    ensures
        valid_utf8(stored) && trimmed(decode_utf8(stored)).len() > 0 ==> key_in_use(
            Some(stored),
            env,
        ) == Some(trimmed(decode_utf8(stored))),
        valid_utf8(stored) && trimmed(decode_utf8(stored)).len() == 0 ==> key_in_use(
            Some(stored),
            env,
        ) is None,
        !valid_utf8(stored) ==> key_in_use(Some(stored), env) == key_in_use(None, env),
        env matches Some(e) ==> key_in_use(None, env) == (if trimmed(e).len() > 0 {
            Some(trimmed(e))
        } else {
            None
        }),
        key_in_use(None, None) is None,
{
}

/// A lookup that goes well reads the first item that was found, and hands its secret on
/// together with the name under which it was found.
pub proof fn law_a_lookup_reads_the_first_item(
    found: Vec<String>,
    unlocked: Vec<String>,
    no_prompt: String,
    bytes: Vec<u8>,
    legacy: bool,
)
    requires
        found@.len() > 0,
        unlocked@.len() > 0,
        no_prompt@ == "/"@,
    ensures
        ({
            let s0 = if legacy {
                Lookup::SearchLegacy
            } else {
                Lookup::Search
            };
            let s1 = lookup_next(s0, Answer::Found(found));
            let s2 = lookup_next(s1, Answer::Done);
            let s3 = lookup_next(s2, Answer::Unlocked { items: unlocked, prompt: no_prompt });
            let s4 = lookup_next(s3, Answer::Secret(bytes));
            &&& s1 == (Lookup::OpenSession { found, legacy })
            &&& s2 == (Lookup::Unlock { found, legacy })
            &&& s3 == (Lookup::Read { item: found@[0], legacy })
            &&& s4 == (Lookup::Done { secret: Some(bytes), legacy })
        }),
{
}

/// A prompt stands between unlocking and reading: answered, the first item is read where
/// something is unlocked; dismissed, there is no key.
pub proof fn law_a_prompt_stands_before_reading(
    found: Vec<String>,
    items: Vec<String>,
    prompt: String,
    legacy: bool,
)
    requires
        found@.len() > 0,
        prompt@ != "/"@,
    ensures
        ({
            let s = lookup_next(
                Lookup::Unlock { found, legacy },
                Answer::Unlocked { items, prompt },
            );
            let yes = lookup_next(s, Answer::PromptDone { dismissed: false });
            let no = lookup_next(s, Answer::PromptDone { dismissed: true });
            &&& s is Prompt && s->path == prompt
            &&& items@.len() > 0 ==> yes == (Lookup::Read { item: found@[0], legacy })
            &&& items@.len() == 0 ==> (yes matches Lookup::Done { secret, .. } && secret is None)
            &&& no matches Lookup::Done { secret, .. } && secret is None
        }),
{
}

/// A lookup that fails on the way ends without a key: only a failed search of the own
/// items goes on to those from before the rename.
pub proof fn law_a_failed_lookup_has_no_key(s: Lookup)
    ensures
        s is Search ==> lookup_next(s, Answer::Failed) is SearchLegacy,
        !(s is Search) && !(s is Done) ==> (lookup_next(s, Answer::Failed) matches Lookup::Done {
            secret,
            ..
        } && secret is None),
{
}

/// A lookup ends with a secret only where the item's secret is the answer to reading it;
/// without a secret nothing counts as found under the old name, and an end is final.
pub proof fn law_a_lookup_ends_with_what_it_read(s: Lookup, a: Answer)
    ensures
        !(s is Done) ==> (lookup_next(s, a) matches Lookup::Done { secret, legacy } ==> {
            &&& secret is Some <==> s is Read && a is Secret
            &&& secret is None ==> !legacy
            &&& secret matches Some(bytes) ==> a == Answer::Secret(bytes) && legacy == s->Read_legacy
        }),
        s is Done ==> lookup_next(s, a) == s,
        s is Search && a is Secret ==> lookup_next(s, a) is SearchLegacy,
        s is SearchLegacy && !(a is Found) ==> lookup_next(s, a) is Done,
        s is OpenSession && !(a is Done) ==> lookup_next(s, a) is Done,
        s is Unlock && !(a is Unlocked) ==> lookup_next(s, a) is Done,
        s is Prompt && !(a is PromptDone) ==> lookup_next(s, a) is Done,
        s is Read ==> lookup_next(s, a) is Done,
{
}

/// Storing that goes well opens a session, creates the item in the default collection,
/// waits for a prompt where there is one, sets the attributes and then deletes every
/// item from before the rename, one after the other, and ends well.
pub proof fn law_storing_goes_step_by_step(
    collection: String,
    item: String,
    prompt: String,
    stale: Vec<String>,
    at: usize,
    any: Answer,
)
    requires
        collection@ != "/"@,
    ensures
        store_next(Store::OpenSession, Answer::Done) is ReadAlias,
        store_next(Store::ReadAlias, Answer::Collection(collection)) == (Store::Create {
            collection,
        }),
        prompt@ == "/"@ ==> store_next(
            Store::Create { collection },
            Answer::Created { item, new_prompt: prompt },
        ) == (Store::SetAttributes { item }),
        prompt@ != "/"@ ==> store_next(
            Store::Create { collection },
            Answer::Created { item, new_prompt: prompt },
        ) == (Store::Prompt { path: prompt, item }),
        store_next(Store::Prompt { path: prompt, item }, Answer::PromptDone { dismissed: false })
            == (Store::SetAttributes { item }),
        store_next(Store::SetAttributes { item }, Answer::Done) is SearchLegacy,
        stale@.len() > 0 ==> store_next(Store::SearchLegacy, Answer::Found(stale)) == (
        Store::Delete { stale, at: 0 }),
        stale@.len() == 0 ==> store_next(Store::SearchLegacy, Answer::Found(stale)) == (
        Store::Done { stored: Ok(()) }),
        at + 1 < stale@.len() ==> store_next(Store::Delete { stale, at }, any) == (Store::Delete {
            stale,
            at: (at + 1) as usize,
        }),
        at + 1 >= stale@.len() ==> store_next(Store::Delete { stale, at }, any) == (Store::Done {
            stored: Ok(()),
        }),
{
}

/// Storing that fails before the attributes are set ends with the step that failed.
pub proof fn law_storing_names_what_failed(collection: String, item: String, path: String)
    ensures
        store_next(Store::OpenSession, Answer::Failed) == (Store::Done {
            stored: Err(StoreError::OpenSession),
        }),
        store_next(Store::ReadAlias, Answer::Failed) == (Store::Done {
            stored: Err(StoreError::ReadAlias),
        }),
        path@ == "/"@ ==> store_next(Store::ReadAlias, Answer::Collection(path)) == (Store::Done {
            stored: Err(StoreError::NoCollection),
        }),
        store_next(Store::Create { collection }, Answer::Failed) == (Store::Done {
            stored: Err(StoreError::CreateItem),
        }),
        store_next(Store::Prompt { path, item }, Answer::PromptDone { dismissed: true }) == (
        Store::Done { stored: Err(StoreError::Dismissed) }),
        store_next(Store::Prompt { path, item }, Answer::Failed) == (Store::Done {
            stored: Err(StoreError::Prompt),
        }),
        store_next(Store::SetAttributes { item }, Answer::Failed) == (Store::Done {
            stored: Err(StoreError::SetAttributes),
        }),
{
}

/// A removal searches both kinds of items and deletes all of them in order, the own ones
/// first; a search or a deletion that fails is reported.
pub proof fn law_clearing_deletes_both_kinds(
    own: Vec<String>,
    legacy: Vec<String>,
    at: usize,
    r: Clear,
)
    ensures
        clears(Clear::Search, Answer::Found(own), r) <==> r == (Clear::SearchLegacy { own }),
        clears(Clear::SearchLegacy { own }, Answer::Found(legacy), r) && own@.len() + legacy@.len()
            > 0 ==> (r matches Clear::Delete { all, at: first } && all@ == own@ + legacy@ && first == 0),
        clears(Clear::SearchLegacy { own }, Answer::Found(legacy), r) && own@.len() + legacy@.len()
            == 0 ==> r == (Clear::Done { cleared: true }),
        clears(Clear::Search, Answer::Failed, r) ==> r == (Clear::Done { cleared: false }),
        clears(Clear::SearchLegacy { own }, Answer::Failed, r) ==> r == (Clear::Done {
            cleared: false,
        }),
        clears(Clear::Delete { all: own, at }, Answer::Failed, r) ==> r == (Clear::Done {
            cleared: false,
        }),
        clears(Clear::Delete { all: own, at }, Answer::Done, r) && at + 1 < own@.len() ==> r == (
        Clear::Delete { all: own, at: (at + 1) as usize }),
        clears(Clear::Delete { all: own, at }, Answer::Done, r) && at + 1 >= own@.len() ==> r == (
        Clear::Done { cleared: true }),
{
}

/// Every way in which storing a key can fail has its own message.
pub proof fn law_store_errors_say_what_failed(e: StoreError)
    ensures
        e is OpenSession ==> e.text() == "OpenSession"@,
        e is ReadAlias ==> e.text() == "ReadAlias(\"default\")"@,
        e is NoCollection ==> e.text()
            == "no default collection; user has no Secret Service collection set up"@,
        e is CreateItem ==> e.text() == "CreateItem"@,
        e is Prompt ==> e.text() == "prompt Completed stream ended unexpectedly"@,
        e is Dismissed ==> e.text() == "CreateItem prompt dismissed"@,
        e is SetAttributes ==> e.text() == "set Item.Attributes (current)"@,
{
}

} // verus!
