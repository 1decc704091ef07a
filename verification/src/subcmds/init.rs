//! Initialising a store or a sub-store, and re-encrypting one for new keys.
use crate::error::PassrsError;
use crate::subcmds::generate::{joined, lines_of};
use crate::text::push_str;
use vstd::prelude::*;

verus! {

/// What `init` does.
#[derive(Debug, Clone, Copy, PartialEq, Eq, Structural)]
pub enum InitPlan {
    /// Create the store (it does not exist, or has no `.gpg-id`).
    CreateStore,
    /// Create a sub-store at the given path, which does not exist yet.
    CreateSubstore,
    /// Re-encrypt the existing sub-store at the given path for the keys.
    ReencryptSubstore,
    /// Re-encrypt the whole store for the keys.
    ReencryptStore,
}

/// The step `init` takes: `store_ready` tells whether the store exists with
/// its `.gpg-id`, `has_keys` whether any key is given (on the command line or
/// in `PASSWORD_STORE_KEY`), `has_path` whether a sub-store path is given, and
/// `path_exists` whether it exists. A new store needs keys; an existing one is
/// never left without them.
pub open spec fn init_plan_spec(store_ready: bool, has_keys: bool, has_path: bool, path_exists: bool) -> Result<InitPlan, PassrsError> {
    if !store_ready {
        if !has_keys {
            Err(PassrsError::StoreDoesntExist)
        } else {
            Ok(InitPlan::CreateStore)
        }
    } else if !has_keys {
        Err(PassrsError::NoPrivateKeyFound)
    } else if has_path {
        if !path_exists {
            Ok(InitPlan::CreateSubstore)
        } else {
            Ok(InitPlan::ReencryptSubstore)
        }
    } else {
        Ok(InitPlan::ReencryptStore)
    }
}

/// The step `init` takes.
pub fn init_plan(store_ready: bool, has_keys: bool, has_path: bool, path_exists: bool) -> (r: Result<InitPlan, PassrsError>)
    ensures
        r == init_plan_spec(store_ready, has_keys, has_path, path_exists),
        r is Ok <==> has_keys,
        !store_ready && has_keys ==> r == Ok::<InitPlan, PassrsError>(InitPlan::CreateStore),
        !store_ready && !has_keys ==> r == Err::<InitPlan, PassrsError>(PassrsError::StoreDoesntExist),
        store_ready && !has_keys ==> r == Err::<InitPlan, PassrsError>(PassrsError::NoPrivateKeyFound),
{
    if !store_ready {
        if !has_keys {
            Err(PassrsError::StoreDoesntExist)
        } else {
            Ok(InitPlan::CreateStore)
        }
    } else if !has_keys {
        Err(PassrsError::NoPrivateKeyFound)
    } else if has_path {
        if !path_exists {
            Ok(InitPlan::CreateSubstore)
        } else {
            Ok(InitPlan::ReencryptSubstore)
        }
    } else {
        Ok(InitPlan::ReencryptStore)
    }
}

/// What `init` does, by what there is: it succeeds exactly when keys are
/// given. Without a store (or without its `.gpg-id`) it creates the store
/// whenever keys are given, and a sub-store path, existing or not, changes
/// nothing; without keys it fails with `StoreDoesntExist`. With a store, no
/// keys is `NoPrivateKeyFound` (a store is never left without keys); with
/// keys, no path re-encrypts the whole store, a new path creates a sub-store
/// and an existing one is re-encrypted.
pub proof fn lemma_init_plan_cases(store_ready: bool, has_keys: bool, has_path: bool, path_exists: bool)
    ensures
        init_plan_spec(store_ready, has_keys, has_path, path_exists) is Ok <==> has_keys,
        !store_ready ==> forall|p: bool, e: bool|
            #[trigger] init_plan_spec(false, has_keys, p, e) == init_plan_spec(false, has_keys, has_path, path_exists),
        !store_ready && has_keys ==> init_plan_spec(store_ready, has_keys, has_path, path_exists) == Ok::<
            InitPlan,
            PassrsError,
        >(InitPlan::CreateStore),
        !store_ready && !has_keys ==> init_plan_spec(store_ready, has_keys, has_path, path_exists) == Err::<
            InitPlan,
            PassrsError,
        >(PassrsError::StoreDoesntExist),
        store_ready && !has_keys ==> init_plan_spec(store_ready, has_keys, has_path, path_exists) == Err::<
            InitPlan,
            PassrsError,
        >(PassrsError::NoPrivateKeyFound),
        store_ready && has_keys && !has_path ==> init_plan_spec(store_ready, has_keys, has_path, path_exists)
            == Ok::<InitPlan, PassrsError>(InitPlan::ReencryptStore),
        store_ready && has_keys && has_path && !path_exists ==> init_plan_spec(
            store_ready,
            has_keys,
            has_path,
            path_exists,
        ) == Ok::<InitPlan, PassrsError>(InitPlan::CreateSubstore),
        store_ready && has_keys && has_path && path_exists ==> init_plan_spec(
            store_ready,
            has_keys,
            has_path,
            path_exists,
        ) == Ok::<InitPlan, PassrsError>(InitPlan::ReencryptSubstore),
{
}

/// The keys to use: those given, else those of `PASSWORD_STORE_KEY`.
pub fn keys_to_use(given: Vec<String>, configured: Vec<String>) -> (r: Vec<String>)
    ensures
        given@.len() > 0 ==> r@ == given@,
        given@.len() == 0 ==> r@ == configured@,
{
    if given.len() == 0 {
        configured
    } else {
        given
    }
}

/// The items joined with `", "`.
pub open spec fn comma_joined(items: Seq<Seq<char>>) -> Seq<char>
    decreases items.len(),
{
    if items.len() == 0 {
        Seq::empty()
    } else if items.len() == 1 {
        items[0]
    } else {
        comma_joined(items.drop_last()) + ", "@ + items.last()
    }
}

/// Joins `items` with `", "`.
pub fn join_comma(items: &Vec<String>) -> (r: String)
    ensures
        r@ == comma_joined(lines_of(items@)),
{
    let mut out = String::new();
    let mut i: usize = 0;
    while i < items.len()
        invariant
            i <= items@.len(),
            out@ == comma_joined(lines_of(items@).take(i as int)),
        decreases items.len() - i,
    {
        assert(lines_of(items@).take(i + 1).drop_last() =~= lines_of(items@).take(i as int));
        if i > 0 {
            push_str(&mut out, ", ");
        }
        push_str(&mut out, items[i].as_str());
        i += 1;
    }
    assert(lines_of(items@).take(items.len() as int) =~= lines_of(items@));
    out
}

/// How the keys of a store are named in messages: the one key, or all of them
/// joined with `", "`.
pub fn keys_description(keys: &Vec<String>) -> (r: String)
    requires
        keys@.len() > 0,
    ensures
        keys@.len() == 1 ==> r@ == keys@[0]@,
        keys@.len() > 1 ==> r@ == comma_joined(lines_of(keys@)),
{
    if keys.len() > 1 {
        join_comma(keys)
    } else {
        keys[0].clone()
    }
}

/// The contents of a `.gpg-id` file: one key a line.
pub fn gpg_id_contents(ids: &Vec<String>) -> (r: String)
    ensures
        r@ == joined(lines_of(ids@)),
{
    crate::subcmds::generate::join_lines(ids)
}

/// The notice that a store was initialised for `keys` (a description of them).
pub fn initialized_message(keys: &str, path: Option<&str>) -> (r: String)
    ensures
        path is None ==> r@ == "Password store initialized for "@ + keys@,
        path matches Some(p) ==> r@ == "Password store initialized for "@ + keys@ + " ("@ + p@ + ")"@,
{
    let mut m = "Password store initialized for ".to_owned();
    push_str(&mut m, keys);
    if let Some(p) = path {
        push_str(&mut m, " (");
        push_str(&mut m, p);
        push_str(&mut m, ")");
    }
    m
}

/// The warning that a sub-store path is ignored because the store itself is
/// created first.
pub fn ignored_path_message(path: &str, store: &str) -> (r: String)
    ensures
        r@ == "Ignoring path "@ + path@ + "; creating store at "@ + store@,
{
    let mut m = "Ignoring path ".to_owned();
    push_str(&mut m, path);
    push_str(&mut m, "; creating store at ");
    push_str(&mut m, store);
    m
}

/// The commit message of re-encrypting: the sub-store `relative` (its path
/// within the store), or the whole store, for the keys described by `keys`.
pub fn reencrypt_message(relative: Option<&str>, keys: &str) -> (r: String)
    ensures
        relative matches Some(p) ==> r@ == "Re-encrypt "@ + p@ + " using new GPG ID "@ + keys@,
        relative is None ==> r@ == "Re-encrypt "@ + "password store"@ + " using new GPG ID "@ + keys@,
{
    let mut m = "Re-encrypt ".to_owned();
    match relative {
        Some(p) => push_str(&mut m, p),
        None => push_str(&mut m, "password store"),
    }
    push_str(&mut m, " using new GPG ID ");
    push_str(&mut m, keys);
    m
}

/// The commit message of setting the keys of the sub-store `relative`.
pub fn substore_message(keys: &Vec<String>, relative: &str) -> (r: String)
    ensures
        r@ == "Set GPG ID to "@ + comma_joined(lines_of(keys@)) + " ("@ + relative@ + ")"@,
{
    let mut m = "Set GPG ID to ".to_owned();
    let k = join_comma(keys);
    push_str(&mut m, k.as_str());
    push_str(&mut m, " (");
    push_str(&mut m, relative);
    push_str(&mut m, ")");
    m
}

/// The reference-log message of a commit: `prefix` then the commit message.
pub fn ref_message(prefix: &str, message: &str) -> (r: String)
    ensures
        r@ == prefix@ + message@,
{
    let mut m = prefix.to_owned();
    push_str(&mut m, message);
    m
}

/// The key to write into `.gpg-id` for a secret key: its first user id's
/// e-mail where it has one, else the key as given.
pub fn key_user_id(key: &str, email: Option<&str>) -> (r: String)
    ensures
        email matches Some(e) ==> r@ == e@,
        email is None ==> r@ == key@,
{
    match email {
        Some(e) => e.to_owned(),
        None => key.to_owned(),
    }
}

} // verus!
