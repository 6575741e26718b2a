//! Keys and requests for the browser's key-value storage.
//!
//! Feature files and settings are kept under namespaced keys.  The functions
//! here compute what is stored where, and what the stored keys mean; the
//! application hands each request to the browser and passes the keys it
//! reads back in.

use vstd::prelude::*;
use crate::text::{chars_of, has_prefix_str, lemma_strs_push, string_of, strs, sub_chars};

verus! {

/// One operation on the key-value storage.
#[derive(Debug, Clone, PartialEq, Eq)]
pub enum StorageRequest {
    /// Store `value` under `key`.
    Store { key: String, value: String },
    /// Read the value under `key`.
    Load { key: String },
    /// Remove the value under `key`.
    Remove { key: String },
}

/// A storage request as plain values.
pub enum RequestView {
    Store { key: Seq<char>, value: Seq<char> },
    Load { key: Seq<char> },
    Remove { key: Seq<char> },
}

impl View for StorageRequest {
    type V = RequestView;

    open spec fn view(&self) -> RequestView {
        match self {
            StorageRequest::Store { key, value } => RequestView::Store { key: key@, value: value@ },
            StorageRequest::Load { key } => RequestView::Load { key: key@ },
            StorageRequest::Remove { key } => RequestView::Remove { key: key@ },
        }
    }
}

/// The storage after a request: a store writes its key, a removal deletes
/// its key, a load changes nothing.
pub open spec fn apply_request(m: Map<Seq<char>, Seq<char>>, r: RequestView) -> Map<Seq<char>, Seq<char>> {
    match r {
        RequestView::Store { key, value } => m.insert(key, value),
        RequestView::Load { .. } => m,
        RequestView::Remove { key } => m.remove(key),
    }
}

/// The storage after a run of requests, in order.
pub open spec fn apply_requests(m: Map<Seq<char>, Seq<char>>, rs: Seq<RequestView>) -> Map<Seq<char>, Seq<char>>
    decreases rs.len(),
{
    if rs.len() == 0 {
        m
    } else {
        apply_requests(apply_request(m, rs[0]), rs.drop_first())
    }
}

/// What a request reads from the storage: a load gives the value under its
/// key, if there is one; other requests read nothing.
pub open spec fn request_reply(m: Map<Seq<char>, Seq<char>>, r: RequestView) -> Option<Seq<char>> {
    match r {
        RequestView::Load { key } => if m.dom().contains(key) { Some(m[key]) } else { None },
        _ => None,
    }
}

/// Whether a request writes or removes the value under `key`.
pub open spec fn touches(r: RequestView, key: Seq<char>) -> bool {
    match r {
        RequestView::Store { key: k, .. } => k == key,
        RequestView::Load { .. } => false,
        RequestView::Remove { key: k } => k == key,
    }
}

/// The prefix of every key this application stores.
pub open spec fn storage_prefix() -> Seq<char> {
    "teshi:"@
}

/// The prefix of the file names that hold feature files.
pub open spec fn feature_prefix() -> Seq<char> {
    "feature:"@
}

/// The file name under which the settings are kept.
pub open spec fn settings_name() -> Seq<char> {
    "settings"@
}

/// The storage key of a file name.
pub open spec fn storage_key(name: Seq<char>) -> Seq<char> {
    storage_prefix() + name
}

/// The texts that start with `p`, with `p` removed, in order.
pub open spec fn strip_prefixed(ks: Seq<Seq<char>>, p: Seq<char>) -> Seq<Seq<char>>
    decreases ks.len(),
{
    if ks.len() == 0 {
        seq![]
    } else if p.is_prefix_of(ks.last()) {
        strip_prefixed(ks.drop_last(), p).push(ks.last().skip(p.len() as int))
    } else {
        strip_prefixed(ks.drop_last(), p)
    }
}

/// `a` followed by `b`.
fn concat(a: &str, b: &str) -> (r: String)
    ensures
        r@ == a@ + b@,
{
    let mut cs = chars_of(a);
    let bs = chars_of(b);
    let mut i: usize = 0;
    let ghost a0 = cs@;
    while i < bs.len()
        invariant
            i <= bs.len(),
            cs@ == a0 + bs@.take(i as int),
        decreases bs.len() - i,
    {
        cs.push(bs[i]);
        i += 1;
        assert(cs@ =~= a0 + bs@.take(i as int));
    }
    assert(bs@.take(bs.len() as int) =~= bs@);
    string_of(&cs)
}

/// The keys of `keys` that start with `prefix`, with the prefix removed.
fn strip_all(keys: &Vec<String>, prefix: &str) -> (r: Vec<String>)
    ensures
        strs(r@) == strip_prefixed(strs(keys@), prefix@),
{
    let ghost ks = strs(keys@);
    let n = chars_of(prefix).len();
    let mut r: Vec<String> = Vec::new();
    let mut i: usize = 0;
    assert(ks.take(0) =~= Seq::<Seq<char>>::empty());
    while i < keys.len()
        invariant
            i <= keys.len(),
            ks == strs(keys@),
            n == prefix@.len(),
            strs(r@) == strip_prefixed(ks.take(i as int), prefix@),
        decreases keys.len() - i,
    {
        let k = chars_of(keys[i].as_str());
        proof {
            assert(ks.take(i + 1).drop_last() =~= ks.take(i as int));
            assert(ks.take(i + 1).last() == k@);
        }
        if has_prefix_str(&k, prefix) {
            let name = string_of(&sub_chars(&k, n, k.len()));
            proof {
                assert(name@ =~= k@.skip(n as int));
                lemma_strs_push(r@, name);
            }
            r.push(name);
        }
        i += 1;
    }
    assert(ks.take(keys.len() as int) =~= ks);
    r
}

/// The request that saves a file (or any text value) under a namespaced key.
pub fn save_file(name: &str, content: &str) -> (r: StorageRequest)
    ensures
        r@ == (RequestView::Store { key: storage_key(name@), value: content@ }),
{
    StorageRequest::Store { key: concat("teshi:", name), value: String::from_str(content) }
}

/// The request that loads a file (or any text value).
pub fn load_file(name: &str) -> (r: StorageRequest)
    ensures
        r@ == (RequestView::Load { key: storage_key(name@) }),
{
    StorageRequest::Load { key: concat("teshi:", name) }
}

/// The request that deletes a saved file.
pub fn delete_file(name: &str) -> (r: StorageRequest)
    ensures
        r@ == (RequestView::Remove { key: storage_key(name@) }),
{
    StorageRequest::Remove { key: concat("teshi:", name) }
}

/// The stored file names, from all the keys of the storage: the keys with
/// this application's prefix, the prefix removed.
pub fn list_files(keys: &Vec<String>) -> (files: Vec<String>)
    ensures
        strs(files@) == strip_prefixed(strs(keys@), storage_prefix()),
{
    strip_all(keys, "teshi:")
}

/// The request that saves a feature file's content.  The name should be a
/// relative path like "features/login.feature".
pub fn save_feature(name: &str, content: &str) -> (r: StorageRequest)
    ensures
        r@ == (RequestView::Store { key: storage_key(feature_prefix() + name@), value: content@ }),
{
    let file = concat("feature:", name);
    save_file(file.as_str(), content)
}

/// The request that loads a feature file's content.
pub fn load_feature(name: &str) -> (r: StorageRequest)
    ensures
        r@ == (RequestView::Load { key: storage_key(feature_prefix() + name@) }),
{
    let file = concat("feature:", name);
    load_file(file.as_str())
}

/// The request that deletes a feature file.
pub fn delete_feature(name: &str) -> (r: StorageRequest)
    ensures
        r@ == (RequestView::Remove { key: storage_key(feature_prefix() + name@) }),
{
    let file = concat("feature:", name);
    delete_file(file.as_str())
}

/// The stored feature file names, from the stored file names.
pub fn list_features(files: &Vec<String>) -> (features: Vec<String>)
    ensures
        strs(features@) == strip_prefixed(strs(files@), feature_prefix()),
{
    strip_all(files, "feature:")
}

/// The request that saves user settings (API key, Runner URL, etc.) as JSON.
pub fn save_settings(settings: &str) -> (r: StorageRequest)
    ensures
        r@ == (RequestView::Store { key: storage_key(settings_name()), value: settings@ }),
{
    save_file("settings", settings)
}

/// The request that loads the user settings.
pub fn load_settings() -> (r: StorageRequest)
    ensures
        r@ == (RequestView::Load { key: storage_key(settings_name()) }),
{
    load_file("settings")
}

/// A file saved under a name is listed under that name: once a file's key
/// is among the storage's keys, listing the files gives its name, after the
/// names of the keys before it.
pub proof fn lemma_saved_file_is_listed(keys: Seq<Seq<char>>, name: Seq<char>)
    ensures
        strip_prefixed(keys.push(storage_key(name)), storage_prefix()) == strip_prefixed(
            keys,
            storage_prefix(),
        ).push(name),
{
    let k = storage_key(name);
    assert(keys.push(k).drop_last() =~= keys);
    assert(storage_prefix().is_prefix_of(k)) by {
        assert(k.take(storage_prefix().len() as int) =~= storage_prefix());
    }
    assert(k.skip(storage_prefix().len() as int) =~= name);
}

/// A feature saved under a name is listed under that name: listing the
/// files, then the features among them, gives its name last.
pub proof fn lemma_saved_feature_is_listed(keys: Seq<Seq<char>>, name: Seq<char>)
    ensures
        strip_prefixed(
            strip_prefixed(keys.push(storage_key(feature_prefix() + name)), storage_prefix()),
            feature_prefix(),
        ) == strip_prefixed(strip_prefixed(keys, storage_prefix()), feature_prefix()).push(name),
{
    let file = feature_prefix() + name;
    lemma_saved_file_is_listed(keys, file);
    let files = strip_prefixed(keys, storage_prefix());
    assert(files.push(file).drop_last() =~= files);
    assert(feature_prefix().is_prefix_of(file)) by {
        assert(file.take(feature_prefix().len() as int) =~= feature_prefix());
    }
    assert(file.skip(feature_prefix().len() as int) =~= name);
}

/// The saved settings are never listed as a feature.
pub proof fn lemma_settings_not_listed_as_feature(keys: Seq<Seq<char>>)
    ensures
        strip_prefixed(
            strip_prefixed(keys.push(storage_key(settings_name())), storage_prefix()),
            feature_prefix(),
        ) == strip_prefixed(strip_prefixed(keys, storage_prefix()), feature_prefix()),
{
    lemma_saved_file_is_listed(keys, settings_name());
    let files = strip_prefixed(keys, storage_prefix());
    assert(files.push(settings_name()).drop_last() =~= files);
    reveal_strlit("settings");
    reveal_strlit("feature:");
    assert(settings_name()[0] != feature_prefix()[0]);
}

/// Reading a key gives back what was last stored under it: after a store of
/// `value` under `key`, and any run of requests that neither store under nor
/// remove `key`, a load of `key` reads `value`.
pub proof fn lemma_load_after_store(
    m: Map<Seq<char>, Seq<char>>,
    key: Seq<char>,
    value: Seq<char>,
    between: Seq<RequestView>,
)
    requires
        forall|i: int| 0 <= i < between.len() ==> !touches(#[trigger] between[i], key),
    ensures
        request_reply(
            apply_requests(apply_request(m, RequestView::Store { key, value }), between),
            RequestView::Load { key },
        ) == Some(value),
{
    lemma_untouched_key_kept(apply_request(m, RequestView::Store { key, value }), key, between);
}

/// Requests that neither store under nor remove `key` leave its entry as it was.
pub proof fn lemma_untouched_key_kept(m: Map<Seq<char>, Seq<char>>, key: Seq<char>, rs: Seq<RequestView>)
    requires
        forall|i: int| 0 <= i < rs.len() ==> !touches(#[trigger] rs[i], key),
    ensures
        apply_requests(m, rs).dom().contains(key) == m.dom().contains(key),
        m.dom().contains(key) ==> apply_requests(m, rs)[key] == m[key],
    decreases rs.len(),
{
    if rs.len() > 0 {
        assert(!touches(rs[0], key));
        assert forall|i: int| 0 <= i < rs.drop_first().len() implies !touches(#[trigger] rs.drop_first()[i], key) by {
            assert(rs.drop_first()[i] == rs[i + 1]);
        }
        lemma_untouched_key_kept(apply_request(m, rs[0]), key, rs.drop_first());
    }
}

/// A removal deletes exactly its key: a load of it then reads nothing, and
/// every other key keeps its value.
pub proof fn lemma_remove_deletes_only_its_key(m: Map<Seq<char>, Seq<char>>, key: Seq<char>)
    ensures
        request_reply(apply_request(m, RequestView::Remove { key }), RequestView::Load { key }) is None,
        forall|k: Seq<char>| k != key ==> request_reply(
            apply_request(m, RequestView::Remove { key }),
            RequestView::Load { key: k },
        ) == #[trigger] request_reply(m, RequestView::Load { key: k }),
{
}

/// The names listed by prefix come from keys that carry the prefix.
proof fn lemma_listed_has_key(ks: Seq<Seq<char>>, p: Seq<char>, x: Seq<char>)
    requires
        strip_prefixed(ks, p).contains(x),
    ensures
        ks.contains(p + x),
    decreases ks.len(),
{
    let last = ks.last();
    if p.is_prefix_of(last) && last.skip(p.len() as int) == x {
        assert(last =~= p + x);
        assert(ks[ks.len() - 1] == last);
    } else {
        if p.is_prefix_of(last) {
            let i = choose|i: int| 0 <= i < strip_prefixed(ks, p).len() && strip_prefixed(ks, p)[i] == x;
            assert(strip_prefixed(ks, p) == strip_prefixed(ks.drop_last(), p).push(last.skip(p.len() as int)));
            assert(i < strip_prefixed(ks.drop_last(), p).len());
            assert(strip_prefixed(ks.drop_last(), p)[i] == x);
        }
        lemma_listed_has_key(ks.drop_last(), p, x);
        let j = choose|j: int| 0 <= j < ks.drop_last().len() && ks.drop_last()[j] == p + x;
        assert(ks[j] == p + x);
    }
}

/// A deleted feature is no longer listed: in any listing of the keys of the
/// storage after the feature's removal, the features found do not include
/// its name.
pub proof fn lemma_deleted_feature_not_listed(
    m: Map<Seq<char>, Seq<char>>,
    name: Seq<char>,
    keys: Seq<Seq<char>>,
)
    requires
        keys.to_set() == apply_request(m, RequestView::Remove { key: storage_key(feature_prefix() + name) }).dom(),
    ensures
        !strip_prefixed(strip_prefixed(keys, storage_prefix()), feature_prefix()).contains(name),
{
    let files = strip_prefixed(keys, storage_prefix());
    if strip_prefixed(files, feature_prefix()).contains(name) {
        lemma_listed_has_key(files, feature_prefix(), name);
        lemma_listed_has_key(keys, storage_prefix(), feature_prefix() + name);
        let k = storage_key(feature_prefix() + name);
        assert(keys.to_set().contains(k));
        assert(false);
    }
}

/// A saved feature is read back: a load of the feature after saving it, with
/// no request in between that touches its key, gives the saved content.
pub proof fn lemma_load_feature_after_save(
    m: Map<Seq<char>, Seq<char>>,
    name: Seq<char>,
    content: Seq<char>,
    between: Seq<RequestView>,
)
    requires
        forall|i: int| 0 <= i < between.len() ==> !touches(#[trigger] between[i], storage_key(feature_prefix() + name)),
    ensures
        request_reply(
            apply_requests(
                apply_request(m, RequestView::Store { key: storage_key(feature_prefix() + name), value: content }),
                between,
            ),
            RequestView::Load { key: storage_key(feature_prefix() + name) },
        ) == Some(content),
{
    lemma_load_after_store(m, storage_key(feature_prefix() + name), content, between);
}

/// Saved settings are read back: a load of the settings after saving them,
/// with no request in between that touches their key, gives what was saved.
pub proof fn lemma_load_settings_after_save(
    m: Map<Seq<char>, Seq<char>>,
    settings: Seq<char>,
    between: Seq<RequestView>,
)
    requires
        forall|i: int| 0 <= i < between.len() ==> !touches(#[trigger] between[i], storage_key(settings_name())),
    ensures
        request_reply(
            apply_requests(
                apply_request(m, RequestView::Store { key: storage_key(settings_name()), value: settings }),
                between,
            ),
            RequestView::Load { key: storage_key(settings_name()) },
        ) == Some(settings),
{
    lemma_load_after_store(m, storage_key(settings_name()), settings, between);
}

} // verus!
