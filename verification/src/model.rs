//! What one reconciliation run means, as a mathematical function.
//!
//! Each entity kind is handled in three steps: validate every declared
//! entity in document order, stopping at the first failure; remove the
//! orphans (rows provisioned earlier whose key is no longer declared); and
//! upsert a provisioned row for every declared entity. [`run_spec`] chains
//! the four kinds in dependency order — users, domains, mailboxes, aliases —
//! stopping at the first failing kind and leaving that kind's table and all
//! later ones untouched.
//!
//! The executable engine in [`crate::provision`] is proved equal to these
//! functions.

use crate::errors::ErrM;
use crate::secrets::{file_ref_path, resolve_of};
use crate::state::{AliasM, DomainM, MailboxM, StateM, UserM};
use crate::store::{AliasRecordM, DomainRecordM, MailboxRecordM, StoreM, UserRecordM};
use crate::table::{
    has_entry_key, lemma_contains_drop_last, lemma_has_key_drop_last, lemma_provisioned_keys,
    lemma_unique_drop_last, provisioned_keys_of, unique_entry_keys, EntryM, RowM,
};
use crate::text::{domain_of, find_char};
use vstd::prelude::*;

verus! {

/// The shortest API token the engine accepts, in characters.
pub const MIN_API_TOKEN_LEN: usize = 16;

/// An optional document field as it is stored: absent becomes empty.
pub open spec fn column_of(v: Option<Seq<char>>) -> Seq<char> {
    match v {
        Some(s) => s,
        None => Seq::empty(),
    }
}

/// Validation and row construction for one declared user: its password
/// secret must resolve.
pub open spec fn check_user_of(u: UserM, files: Map<Seq<char>, Seq<char>>) -> Result<
    UserRecordM,
    ErrM,
> {
    match resolve_of(u.password_hash, files) {
        Some(ph) => Ok(UserRecordM { password_hash: ph, admin: u.admin, active: u.active }),
        None => Err(ErrM::SecretFileUnreadable { path: file_ref_path(u.password_hash) }),
    }
}

/// Validation and row construction for one declared domain: its owner must
/// be a declared user.
pub open spec fn check_domain_of(name: Seq<char>, d: DomainM, users: Seq<EntryM<UserM>>) -> Result<
    DomainRecordM,
    ErrM,
> {
    if !has_entry_key(users, d.owner) {
        Err(ErrM::DomainOwnerMissing { domain: name, owner: d.owner })
    } else {
        Ok(
            DomainRecordM {
                catch_all: column_of(d.catch_all),
                public: d.public,
                active: d.active,
                owner: d.owner,
            },
        )
    }
}

/// Validation and row construction for one declared mailbox, in the order
/// the failures are reported: the address must have an `@`, its domain part
/// must be a declared domain, the owner must be a declared user, both
/// secrets must resolve, and a resolved API token must not be too short.
pub open spec fn check_mailbox_of(
    name: Seq<char>,
    m: MailboxM,
    doc: StateM,
    files: Map<Seq<char>, Seq<char>>,
) -> Result<MailboxRecordM, ErrM> {
    if find_char(name, '@') is None {
        Err(ErrM::MailboxInvalidAddress { mailbox: name })
    } else if !has_entry_key(doc.domains, domain_of(name)) {
        Err(ErrM::MailboxDomainMissing { mailbox: name, domain: domain_of(name) })
    } else if !has_entry_key(doc.users, m.owner) {
        Err(ErrM::MailboxOwnerMissing { mailbox: name, owner: m.owner })
    } else {
        match resolve_of(m.password_hash, files) {
            None => Err(ErrM::SecretFileUnreadable { path: file_ref_path(m.password_hash) }),
            Some(ph) => match m.api_token {
                None => Ok(
                    MailboxRecordM {
                        domain: domain_of(name),
                        password_hash: ph,
                        api_token: None,
                        active: m.active,
                        owner: m.owner,
                    },
                ),
                Some(t) => match resolve_of(t, files) {
                    None => Err(ErrM::SecretFileUnreadable { path: file_ref_path(t) }),
                    Some(tok) => if tok.len() < MIN_API_TOKEN_LEN {
                        Err(ErrM::MailboxTokenTooShort { mailbox: name })
                    } else {
                        Ok(
                            MailboxRecordM {
                                domain: domain_of(name),
                                password_hash: ph,
                                api_token: Some(tok),
                                active: m.active,
                                owner: m.owner,
                            },
                        )
                    },
                },
            },
        }
    }
}

/// Validation and row construction for one declared alias: the address must
/// have an `@`, its domain part must be a declared domain, and the owner
/// must be a declared user or a declared mailbox.
pub open spec fn check_alias_of(name: Seq<char>, a: AliasM, doc: StateM) -> Result<
    AliasRecordM,
    ErrM,
> {
    if find_char(name, '@') is None {
        Err(ErrM::AliasInvalidAddress { alias: name })
    } else if !has_entry_key(doc.domains, domain_of(name)) {
        Err(ErrM::AliasDomainMissing { alias: name, domain: domain_of(name) })
    } else if !has_entry_key(doc.users, a.owner) && !has_entry_key(doc.mailboxes, a.owner) {
        Err(ErrM::AliasOwnerMissing { alias: name, owner: a.owner })
    } else {
        Ok(
            AliasRecordM {
                domain: domain_of(name),
                target: a.target,
                comment: column_of(a.comment),
                active: a.active,
                owner: a.owner,
            },
        )
    }
}

/// Check every declared entity in document order; the first failure wins.
/// On success, each entity becomes a row marked provisioned.
pub open spec fn check_all<DV, TV>(
    decls: Seq<EntryM<DV>>,
    check: spec_fn(EntryM<DV>) -> Result<TV, ErrM>,
) -> Result<Seq<EntryM<RowM<TV>>>, ErrM>
    decreases decls.len(),
{
    if decls.len() == 0 {
        Ok(Seq::empty())
    } else {
        match check(decls[0]) {
            Err(e) => Err(e),
            Ok(v) => match check_all(decls.skip(1), check) {
                Err(e) => Err(e),
                Ok(rest) => Ok(
                    seq![EntryM { key: decls[0].key, val: RowM { val: v, provisioned: true } }]
                        + rest,
                ),
            },
        }
    }
}

/// When every entity checks out, [`check_all`] yields their rows in order.
pub proof fn lemma_check_all_ok<DV, TV>(
    decls: Seq<EntryM<DV>>,
    check: spec_fn(EntryM<DV>) -> Result<TV, ErrM>,
)
    requires
        forall|i: int| 0 <= i < decls.len() ==> check(#[trigger] decls[i]) is Ok,
    ensures
        check_all(decls, check) is Ok,
        check_all(decls, check)->Ok_0.len() == decls.len(),
        forall|i: int|
            0 <= i < decls.len() ==> check_all(decls, check)->Ok_0[i] == (EntryM {
                key: (#[trigger] decls[i]).key,
                val: RowM { val: check(decls[i])->Ok_0, provisioned: true },
            }),
    decreases decls.len(),
{
    if decls.len() == 0 {
    } else {
        assert(check(decls[0]) is Ok);
        assert(forall|i: int|
            0 <= i < decls.skip(1).len() ==> #[trigger] decls.skip(1)[i] == decls[i + 1]);
        lemma_check_all_ok(decls.skip(1), check);
        let rest = check_all(decls.skip(1), check)->Ok_0;
        let e0 = EntryM {
            key: decls[0].key,
            val: RowM { val: check(decls[0])->Ok_0, provisioned: true },
        };
        assert(check_all(decls, check)->Ok_0 == seq![e0] + rest);
        assert forall|i: int| 0 <= i < decls.len() implies (seq![e0] + rest)[i] == (EntryM {
            key: (#[trigger] decls[i]).key,
            val: RowM { val: check(decls[i])->Ok_0, provisioned: true },
        }) by {
            if i == 0 {
                assert((seq![e0] + rest)[0] == e0);
            } else {
                assert((seq![e0] + rest)[i] == rest[i - 1]);
                assert(decls.skip(1)[i - 1] == decls[i]);
            }
        }
    }
}

/// When entity `i` is the first to fail, [`check_all`] reports its error.
pub proof fn lemma_check_all_err<DV, TV>(
    decls: Seq<EntryM<DV>>,
    check: spec_fn(EntryM<DV>) -> Result<TV, ErrM>,
    i: int,
)
    requires
        0 <= i < decls.len(),
        check(decls[i]) is Err,
        forall|j: int| 0 <= j < i ==> check(#[trigger] decls[j]) is Ok,
    ensures
        check_all(decls, check) == Err::<Seq<EntryM<RowM<TV>>>, ErrM>(check(decls[i])->Err_0),
    decreases decls.len(),
{
    if i == 0 {
    } else {
        assert(check(decls[0]) is Ok);
        assert(forall|j: int|
            0 <= j < decls.skip(1).len() ==> decls.skip(1)[j] == decls[j + 1]);
        lemma_check_all_err(decls.skip(1), check, i - 1);
    }
}

/// One failing entity anywhere in the section makes [`check_all`] fail.
pub proof fn lemma_check_all_has_err<DV, TV>(
    decls: Seq<EntryM<DV>>,
    check: spec_fn(EntryM<DV>) -> Result<TV, ErrM>,
    i: int,
)
    requires
        0 <= i < decls.len(),
        check(decls[i]) is Err,
    ensures
        check_all(decls, check) is Err,
    decreases decls.len(),
{
    if check(decls[0]) is Err {
    } else {
        assert(i > 0);
        assert(decls.skip(1)[i - 1] == decls[i]);
        lemma_check_all_has_err(decls.skip(1), check, i - 1);
    }
}

/// When [`check_all`] succeeds, every entity checked out and the rows are
/// theirs, in order.
pub proof fn lemma_check_all_ok_inv<DV, TV>(
    decls: Seq<EntryM<DV>>,
    check: spec_fn(EntryM<DV>) -> Result<TV, ErrM>,
)
    requires
        check_all(decls, check) is Ok,
    ensures
        forall|i: int| 0 <= i < decls.len() ==> check(#[trigger] decls[i]) is Ok,
        check_all(decls, check)->Ok_0.len() == decls.len(),
        forall|i: int|
            0 <= i < decls.len() ==> check_all(decls, check)->Ok_0[i] == (EntryM {
                key: (#[trigger] decls[i]).key,
                val: RowM { val: check(decls[i])->Ok_0, provisioned: true },
            }),
{
    assert forall|i: int| 0 <= i < decls.len() implies check(#[trigger] decls[i]) is Ok by {
        if check(decls[i]) is Err {
            lemma_check_all_has_err(decls, check, i);
        }
    }
    lemma_check_all_ok(decls, check);
}

/// Insert every row, in order.
pub open spec fn insert_all<TV>(m: Map<Seq<char>, TV>, rows: Seq<EntryM<TV>>) -> Map<
    Seq<char>,
    TV,
>
    decreases rows.len(),
{
    if rows.len() == 0 {
        m
    } else {
        insert_all(m, rows.drop_last()).insert(rows.last().key, rows.last().val)
    }
}

/// With unique keys, [`insert_all`] holds each inserted row under its key
/// and leaves every other key as it was.
pub proof fn lemma_insert_all<TV>(m: Map<Seq<char>, TV>, rows: Seq<EntryM<TV>>)
    requires
        unique_entry_keys(rows),
    ensures
        forall|k: Seq<char>|
            #[trigger] insert_all(m, rows).contains_key(k) <==> m.contains_key(k)
                || has_entry_key(rows, k),
        forall|i: int|
            0 <= i < rows.len() ==> insert_all(m, rows)[(#[trigger] rows[i]).key] == rows[i].val,
        forall|k: Seq<char>|
            m.contains_key(k) && !has_entry_key(rows, k) ==> #[trigger] insert_all(m, rows)[k]
                == m[k],
    decreases rows.len(),
{
    if rows.len() == 0 {
    } else {
        let r = rows.drop_last();
        lemma_unique_drop_last(rows);
        lemma_insert_all(m, r);
        assert(insert_all(m, rows) == insert_all(m, r).insert(rows.last().key, rows.last().val));
        assert forall|k: Seq<char>|
            #[trigger] insert_all(m, rows).contains_key(k) <==> m.contains_key(k) || has_entry_key(
                rows,
                k,
            ) by {
            lemma_has_key_drop_last(rows, k);
            if k == rows.last().key {
                assert(insert_all(m, rows).contains_key(k));
            } else {
                assert(insert_all(m, rows).contains_key(k) == insert_all(m, r).contains_key(k));
            }
        }
        assert forall|i: int|
            0 <= i < rows.len() implies insert_all(m, rows)[(#[trigger] rows[i]).key]
            == rows[i].val by {
            if i < rows.len() - 1 {
                assert(r[i] == rows[i]);
                assert(rows[i].key != rows.last().key);
                assert(insert_all(m, rows)[rows[i].key] == insert_all(m, r)[rows[i].key]);
            }
        }
        assert forall|k: Seq<char>|
            m.contains_key(k) && !has_entry_key(rows, k) implies #[trigger] insert_all(m, rows)[k]
            == m[k] by {
            lemma_has_key_drop_last(rows, k);
            assert(k != rows.last().key);
            assert(insert_all(m, rows)[k] == insert_all(m, r)[k]);
        }
    }
}

/// Remove every key, in order.
pub open spec fn remove_all<TV>(m: Map<Seq<char>, TV>, ks: Seq<Seq<char>>) -> Map<Seq<char>, TV>
    decreases ks.len(),
{
    if ks.len() == 0 {
        m
    } else {
        remove_all(m, ks.drop_last()).remove(ks.last())
    }
}

/// [`remove_all`] drops exactly the listed keys.
pub proof fn lemma_remove_all<TV>(m: Map<Seq<char>, TV>, ks: Seq<Seq<char>>)
    ensures
        forall|k: Seq<char>|
            #[trigger] remove_all(m, ks).contains_key(k) <==> m.contains_key(k) && !ks.contains(k),
        forall|k: Seq<char>|
            m.contains_key(k) && !ks.contains(k) ==> #[trigger] remove_all(m, ks)[k] == m[k],
    decreases ks.len(),
{
    if ks.len() == 0 {
        assert forall|k: Seq<char>| !(#[trigger] ks.contains(k)) by {
            if ks.contains(k) {
                let i = choose|i: int| 0 <= i < ks.len() && ks[i] == k;
            }
        }
    } else {
        lemma_remove_all(m, ks.drop_last());
        assert(remove_all(m, ks) == remove_all(m, ks.drop_last()).remove(ks.last()));
        assert forall|k: Seq<char>|
            #[trigger] remove_all(m, ks).contains_key(k) <==> m.contains_key(k) && !ks.contains(k) by {
            lemma_contains_drop_last(ks, k);
            if k == ks.last() {
                assert(ks.contains(k)) by {
                    assert(ks[ks.len() - 1] == k);
                }
                assert(!remove_all(m, ks).contains_key(k));
            } else {
                assert(remove_all(m, ks).contains_key(k) == remove_all(
                    m,
                    ks.drop_last(),
                ).contains_key(k));
            }
        }
        assert forall|k: Seq<char>|
            m.contains_key(k) && !ks.contains(k) implies #[trigger] remove_all(m, ks)[k]
            == m[k] by {
            lemma_contains_drop_last(ks, k);
            assert(k != ks.last()) by {
                assert(ks[ks.len() - 1] == ks.last());
            }
            assert(remove_all(m, ks)[k] == remove_all(m, ks.drop_last())[k]);
        }
    }
}

/// The keys the orphan pass deletes: provisioned in the table, no longer
/// declared in the document.
pub open spec fn orphan_set<DV, TV>(
    tbl: Map<Seq<char>, RowM<TV>>,
    decls: Seq<EntryM<DV>>,
) -> Set<Seq<char>> {
    Set::new(|k: Seq<char>| tbl.contains_key(k) && tbl[k].provisioned && !has_entry_key(decls, k))
}

/// The orphans among a list of provisioned keys, in list order.
pub open spec fn orphans_of<DV>(prov: Seq<Seq<char>>, decls: Seq<EntryM<DV>>) -> Seq<Seq<char>>
    decreases prov.len(),
{
    if prov.len() == 0 {
        Seq::empty()
    } else {
        let o = orphans_of(prov.drop_last(), decls);
        if has_entry_key(decls, prov.last()) {
            o
        } else {
            o.push(prov.last())
        }
    }
}

/// [`orphans_of`] keeps exactly the undeclared keys.
pub proof fn lemma_orphans_of<DV>(prov: Seq<Seq<char>>, decls: Seq<EntryM<DV>>)
    ensures
        forall|k: Seq<char>|
            #[trigger] orphans_of(prov, decls).contains(k) <==> prov.contains(k) && !has_entry_key(
                decls,
                k,
            ),
    decreases prov.len(),
{
    if prov.len() == 0 {
        assert forall|k: Seq<char>| !(#[trigger] orphans_of(prov, decls).contains(k)) by {
            if orphans_of(prov, decls).contains(k) {
                let i = choose|i: int|
                    0 <= i < orphans_of(prov, decls).len() && orphans_of(prov, decls)[i] == k;
            }
        }
    } else {
        lemma_orphans_of(prov.drop_last(), decls);
        let o = orphans_of(prov.drop_last(), decls);
        assert forall|k: Seq<char>| true implies (#[trigger] prov.contains(k) <==> (
        prov.drop_last().contains(k) || prov.last() == k)) by {
            lemma_contains_drop_last(prov, k);
        }
        if has_entry_key(decls, prov.last()) {
            assert forall|k: Seq<char>|
                #[trigger] orphans_of(prov, decls).contains(k) <==> prov.contains(k)
                    && !has_entry_key(decls, k) by {
                if prov.contains(k) && !has_entry_key(decls, k) {
                    assert(k != prov.last());
                }
            }
        } else {
            assert forall|k: Seq<char>| true implies (#[trigger] orphans_of(prov, decls).contains(
                k,
            ) <==> (o.contains(k) || prov.last() == k)) by {
                lemma_contains_drop_last(o.push(prov.last()), k);
                assert(o.push(prov.last()).drop_last() =~= o);
            }
        }
    }
}

/// Removing the orphans computed from the table's own provisioned keys is
/// the same as removing the orphan set.
pub proof fn lemma_orphan_removal<DV, TV>(s: Seq<EntryM<RowM<TV>>>, decls: Seq<EntryM<DV>>)
    requires
        unique_entry_keys(s),
    ensures
        remove_all(crate::table::entry_map(s), orphans_of(provisioned_keys_of(s), decls))
            == crate::table::entry_map(s).remove_keys(orphan_set(crate::table::entry_map(s), decls)),
{
    let m = crate::table::entry_map(s);
    let o = orphans_of(provisioned_keys_of(s), decls);
    lemma_remove_all(m, o);
    lemma_orphans_of(provisioned_keys_of(s), decls);
    assert forall|k: Seq<char>| true implies (#[trigger] provisioned_keys_of(s).contains(k) <==> (
    m.contains_key(k) && m[k].provisioned)) by {
        lemma_provisioned_keys(s, k);
    }
    assert(remove_all(m, o) =~= m.remove_keys(orphan_set(m, decls)));
}

/// Reconcile one table against one document section: fail on the first
/// invalid entity, otherwise delete the orphans and upsert every declared
/// entity as a provisioned row.
pub open spec fn kind_step<DV, TV>(
    tbl: Map<Seq<char>, RowM<TV>>,
    decls: Seq<EntryM<DV>>,
    check: spec_fn(EntryM<DV>) -> Result<TV, ErrM>,
) -> Result<Map<Seq<char>, RowM<TV>>, ErrM> {
    match check_all(decls, check) {
        Err(e) => Err(e),
        Ok(rows) => Ok(insert_all(tbl.remove_keys(orphan_set(tbl, decls)), rows)),
    }
}

/// The user check as a function of the document's entry alone.
pub open spec fn user_check(files: Map<Seq<char>, Seq<char>>) -> spec_fn(EntryM<UserM>) -> Result<
    UserRecordM,
    ErrM,
> {
    |e: EntryM<UserM>| check_user_of(e.val, files)
}

/// The domain check as a function of the document's entry alone.
pub open spec fn domain_check(doc: StateM) -> spec_fn(EntryM<DomainM>) -> Result<
    DomainRecordM,
    ErrM,
> {
    |e: EntryM<DomainM>| check_domain_of(e.key, e.val, doc.users)
}

/// The mailbox check as a function of the document's entry alone.
pub open spec fn mailbox_check(doc: StateM, files: Map<Seq<char>, Seq<char>>) -> spec_fn(
    EntryM<MailboxM>,
) -> Result<MailboxRecordM, ErrM> {
    |e: EntryM<MailboxM>| check_mailbox_of(e.key, e.val, doc, files)
}

/// The alias check as a function of the document's entry alone.
pub open spec fn alias_check(doc: StateM) -> spec_fn(EntryM<AliasM>) -> Result<AliasRecordM, ErrM> {
    |e: EntryM<AliasM>| check_alias_of(e.key, e.val, doc)
}

/// One whole reconciliation run: the four kinds in dependency order,
/// stopping at the first failure. The second component is the store as the
/// run leaves it — on failure, the kinds before the failing one are already
/// applied and the failing kind's table is untouched.
pub open spec fn run_spec(st: StoreM, doc: StateM, files: Map<Seq<char>, Seq<char>>) -> (Option<
    ErrM,
>, StoreM) {
    match kind_step(st.users, doc.users, user_check(files)) {
        Err(e) => (Some(e), st),
        Ok(users2) => {
            let st1 = StoreM { users: users2, ..st };
            match kind_step(st1.domains, doc.domains, domain_check(doc)) {
                Err(e) => (Some(e), st1),
                Ok(domains2) => {
                    let st2 = StoreM { domains: domains2, ..st1 };
                    match kind_step(st2.mailboxes, doc.mailboxes, mailbox_check(doc, files)) {
                        Err(e) => (Some(e), st2),
                        Ok(mailboxes2) => {
                            let st3 = StoreM { mailboxes: mailboxes2, ..st2 };
                            match kind_step(st3.aliases, doc.aliases, alias_check(doc)) {
                                Err(e) => (Some(e), st3),
                                Ok(aliases2) => (None, StoreM { aliases: aliases2, ..st3 }),
                            }
                        },
                    }
                },
            }
        },
    }
}

} // verus!
