//! Secret indirection: a field value of the exact shape `%{file:<path>}%`
//! stands for the trimmed contents of the file at `<path>`; any other value
//! is used literally.
//!
//! Reading files is the caller's business. It hands the engine a [`FileMap`]
//! with the contents of every file it could read, and resolution looks paths
//! up there, so that a reference to a file that could not be read fails with
//! [`ProvisionError::SecretFileUnreadable`].

use crate::errors::{ErrM, ProvisionError};
use crate::state::{State, StateM};
use crate::table::{
    entry_map, find_entry, has_entry_key, lemma_contains_push, lemma_entry_map_contains,
    lemma_entry_map_index, unique_entry_keys, upsert_entry, Entry,
};
use crate::text::{trim, trim_of};
use vstd::prelude::*;
use vstd::string::StrSliceExecFns;

verus! {

/// Whether `v` has the exact secret-reference shape `%{file:<path>}%`.
pub open spec fn is_file_ref(v: Seq<char>) -> bool {
    v.len() >= 9 && v[0] == '%' && v[1] == '{' && v[2] == 'f' && v[3] == 'i' && v[4] == 'l'
        && v[5] == 'e' && v[6] == ':' && v[v.len() - 2] == '}' && v[v.len() - 1] == '%'
}

/// The `<path>` between the `%{file:` prefix and the `}%` suffix.
pub open spec fn file_ref_path(v: Seq<char>) -> Seq<char> {
    v.subrange(7, v.len() - 2)
}

/// The path a secret reference points at, or `None` for a literal value.
pub fn secret_file_path(value: &String) -> (r: Option<String>)
    ensures
        match r {
            Some(p) => is_file_ref(value@) && p@ == file_ref_path(value@),
            None => !is_file_ref(value@),
        },
{
    let s: &str = value.as_str();
    let n: usize = s.unicode_len();
    if n < 9 {
        return None;
    }
    if s.get_char(0) == '%' && s.get_char(1) == '{' && s.get_char(2) == 'f' && s.get_char(3) == 'i'
        && s.get_char(4) == 'l' && s.get_char(5) == 'e' && s.get_char(6) == ':'
        && s.get_char(n - 2) == '}' && s.get_char(n - 1) == '%' {
        let piece: &str = s.substring_char(7, n - 2);
        Some(piece.to_owned())
    } else {
        None
    }
}

/// File contents by path, as read by the caller before reconciliation.
pub struct FileMap {
    pub entries: Vec<Entry<String>>,
}

impl View for FileMap {
    type V = Map<Seq<char>, Seq<char>>;

    open spec fn view(&self) -> Map<Seq<char>, Seq<char>> {
        entry_map(self.entries.deep_view())
    }
}

impl FileMap {
    /// Paths are unique, so lookups agree with the map abstraction.
    pub open spec fn wf(self) -> bool {
        unique_entry_keys(self.entries.deep_view())
    }

    /// An empty file map: every secret reference will fail to resolve.
    pub fn new() -> (r: FileMap)
        ensures
            r.wf(),
            r@ == Map::<Seq<char>, Seq<char>>::empty(),
    {
        let r = FileMap { entries: Vec::new() };
        proof {
            assert(r.entries.deep_view() =~= Seq::<crate::table::EntryM<Seq<char>>>::empty());
        }
        r
    }

    /// Record the contents read from `path`, replacing what an earlier read
    /// put there.
    pub fn insert(&mut self, path: String, contents: String)
        requires
            old(self).wf(),
        ensures
            final(self).wf(),
            final(self)@ == old(self)@.insert(path@, contents@),
    {
        upsert_entry(&mut self.entries, path, contents);
    }

    /// The recorded contents of `path`, if that file was read.
    pub fn get(&self, path: &String) -> (r: Option<&String>)
        requires
            self.wf(),
        ensures
            match r {
                Some(c) => self@.contains_key(path@) && c@ == self@[path@],
                None => !self@.contains_key(path@),
            },
    {
        let ghost s = self.entries.deep_view();
        match find_entry(&self.entries, path) {
            Some(i) => {
                proof {
                    lemma_entry_map_index(s, i as int);
                }
                Some(&self.entries[i].val)
            },
            None => {
                proof {
                    lemma_entry_map_contains(s, path@);
                }
                None
            },
        }
    }
}

/// What a secret-bearing field resolves to: itself for a literal, the
/// trimmed file contents for a reference, and nothing when the file was not
/// read.
pub open spec fn resolve_of(v: Seq<char>, files: Map<Seq<char>, Seq<char>>) -> Option<Seq<char>> {
    if is_file_ref(v) {
        if files.contains_key(file_ref_path(v)) {
            Some(trim_of(files[file_ref_path(v)]))
        } else {
            None
        }
    } else {
        Some(v)
    }
}

/// Whether `p` is the path of some secret reference in the document: a
/// user's password, a mailbox's password, or a mailbox's API token.
pub open spec fn is_required_file(doc: StateM, p: Seq<char>) -> bool {
    (exists|i: int|
        0 <= i < doc.users.len() && is_file_ref((#[trigger] doc.users[i]).val.password_hash) && p
            == file_ref_path(doc.users[i].val.password_hash)) || (exists|i: int|
        0 <= i < doc.mailboxes.len() && is_file_ref(
            (#[trigger] doc.mailboxes[i]).val.password_hash,
        ) && p == file_ref_path(doc.mailboxes[i].val.password_hash)) || (exists|i: int|
        0 <= i < doc.mailboxes.len() && (#[trigger] doc.mailboxes[i]).val.api_token is Some
            && is_file_ref(doc.mailboxes[i].val.api_token->Some_0) && p == file_ref_path(
            doc.mailboxes[i].val.api_token->Some_0,
        ))
}

/// The paths of every secret reference in the document: exactly the files
/// the caller must read before reconciling.
pub fn required_files(state: &State) -> (r: Vec<String>)
    ensures
        forall|i: int|
            0 <= i < state.deep_view().users.len() && is_file_ref(
                (#[trigger] state.deep_view().users[i]).val.password_hash,
            ) ==> r.deep_view().contains(
                file_ref_path(state.deep_view().users[i].val.password_hash),
            ),
        forall|i: int|
            0 <= i < state.deep_view().mailboxes.len() && is_file_ref(
                (#[trigger] state.deep_view().mailboxes[i]).val.password_hash,
            ) ==> r.deep_view().contains(
                file_ref_path(state.deep_view().mailboxes[i].val.password_hash),
            ),
        forall|i: int|
            0 <= i < state.deep_view().mailboxes.len()
                && (#[trigger] state.deep_view().mailboxes[i]).val.api_token is Some && is_file_ref(
                state.deep_view().mailboxes[i].val.api_token->Some_0,
            ) ==> r.deep_view().contains(
                file_ref_path(state.deep_view().mailboxes[i].val.api_token->Some_0),
            ),
        forall|j: int|
            0 <= j < r.deep_view().len() ==> is_required_file(
                state.deep_view(),
                #[trigger] r.deep_view()[j],
            ),
{
    let ghost doc = state.deep_view();
    let mut r: Vec<String> = Vec::new();
    let mut i: usize = 0;
    while i < state.users.len()
        invariant
            doc == state.deep_view(),
            i <= doc.users.len(),
            forall|j: int|
                0 <= j < i && is_file_ref((#[trigger] doc.users[j]).val.password_hash)
                    ==> r.deep_view().contains(file_ref_path(doc.users[j].val.password_hash)),
            forall|j: int|
                0 <= j < r.deep_view().len() ==> is_required_file(doc, #[trigger] r.deep_view()[j]),
        decreases doc.users.len() - i,
    {
        let ghost pre = r.deep_view();
        if let Some(p) = secret_file_path(&state.users[i].val.password_hash) {
            r.push(p);
            proof {
                assert(r.deep_view() =~= pre.push(
                    file_ref_path(doc.users[i as int].val.password_hash),
                ));
                assert forall|x: Seq<char>| pre.contains(x) implies r.deep_view().contains(x) by {
                    lemma_contains_push(
                        pre,
                        file_ref_path(doc.users[i as int].val.password_hash),
                        x,
                    );
                }
                assert(r.deep_view()[pre.len() as int] == file_ref_path(
                    doc.users[i as int].val.password_hash,
                ));
            }
        }
        i = i + 1;
    }
    let mut i: usize = 0;
    while i < state.mailboxes.len()
        invariant
            doc == state.deep_view(),
            i <= doc.mailboxes.len(),
            forall|j: int|
                0 <= j < doc.users.len() && is_file_ref(
                    (#[trigger] doc.users[j]).val.password_hash,
                ) ==> r.deep_view().contains(file_ref_path(doc.users[j].val.password_hash)),
            forall|j: int|
                0 <= j < i && is_file_ref((#[trigger] doc.mailboxes[j]).val.password_hash)
                    ==> r.deep_view().contains(file_ref_path(doc.mailboxes[j].val.password_hash)),
            forall|j: int|
                0 <= j < i && (#[trigger] doc.mailboxes[j]).val.api_token is Some && is_file_ref(
                    doc.mailboxes[j].val.api_token->Some_0,
                ) ==> r.deep_view().contains(
                    file_ref_path(doc.mailboxes[j].val.api_token->Some_0),
                ),
            forall|j: int|
                0 <= j < r.deep_view().len() ==> is_required_file(doc, #[trigger] r.deep_view()[j]),
        decreases doc.mailboxes.len() - i,
    {
        let ghost pre = r.deep_view();
        let ghost pwpath = file_ref_path(doc.mailboxes[i as int].val.password_hash);
        let ghost tkpath = file_ref_path(doc.mailboxes[i as int].val.api_token->Some_0);
        let ghost mut pushed_pw = false;
        if let Some(p) = secret_file_path(&state.mailboxes[i].val.password_hash) {
            r.push(p);
            proof {
                pushed_pw = true;
                assert(r.deep_view() =~= pre.push(pwpath));
            }
        }
        let ghost mid = r.deep_view();
        let ghost mut pushed_tk = false;
        if let Some(t) = &state.mailboxes[i].val.api_token {
            if let Some(p) = secret_file_path(t) {
                r.push(p);
                proof {
                    pushed_tk = true;
                    assert(r.deep_view() =~= mid.push(tkpath));
                }
            }
        }
        proof {
            let fin = r.deep_view();
            assert forall|x: Seq<char>| pre.contains(x) implies mid.contains(x) by {
                if pushed_pw {
                    lemma_contains_push(pre, pwpath, x);
                }
            }
            assert forall|x: Seq<char>| mid.contains(x) implies fin.contains(x) by {
                if pushed_tk {
                    lemma_contains_push(mid, tkpath, x);
                }
            }
            if pushed_pw {
                assert(mid[pre.len() as int] == pwpath);
                assert(mid.contains(pwpath));
            }
            if pushed_tk {
                assert(fin[mid.len() as int] == tkpath);
                assert(fin.contains(tkpath));
            }
            assert forall|j: int| 0 <= j < fin.len() implies is_required_file(
                doc,
                #[trigger] fin[j],
            ) by {
                if j < pre.len() {
                    assert(fin[j] == pre[j]);
                } else if pushed_pw && j == pre.len() {
                    assert(fin[j] == pwpath);
                    assert(is_required_file(doc, pwpath)) by {
                        assert(is_file_ref(doc.mailboxes[i as int].val.password_hash));
                    }
                } else {
                    assert(pushed_tk && j == mid.len());
                    assert(fin[j] == tkpath);
                    assert(is_required_file(doc, tkpath)) by {
                        assert(doc.mailboxes[i as int].val.api_token is Some);
                        assert(is_file_ref(doc.mailboxes[i as int].val.api_token->Some_0));
                    }
                }
            }
        }
        i = i + 1;
    }
    r
}

/// Resolve one secret-bearing field value against the files read so far.
pub fn resolve_value(value: &String, files: &FileMap) -> (r: Result<String, ProvisionError>)
    requires
        files.wf(),
    ensures
        match r {
            Ok(s) => resolve_of(value@, files@) == Some(s@),
            Err(e) => resolve_of(value@, files@) is None && e.deep_view()
                == (ErrM::SecretFileUnreadable { path: file_ref_path(value@) }),
        },
{
    match secret_file_path(value) {
        None => Ok(value.clone()),
        Some(path) => match files.get(&path) {
            Some(contents) => Ok(trim(contents.as_str())),
            None => Err(ProvisionError::SecretFileUnreadable { path }),
        },
    }
}

} // verus!
