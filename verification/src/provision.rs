//! The executable reconciliation engine, proved equal to the run semantics
//! in [`crate::model`].
//!
//! Per entity kind: [`plan_users`] (and its three siblings) validates every
//! declared entity in document order and builds the provisioned rows to
//! write, stopping at the first failure; [`orphan_keys`] picks the
//! previously provisioned keys that are no longer declared; deletion and
//! upserting then reshape the table. A kind either fails before its table
//! is touched or is applied whole, and [`provision`] chains the four kinds
//! in dependency order.

use crate::errors::{ErrM, ProvisionError};
use crate::model::{
    alias_check, check_alias_of, check_all, check_domain_of, check_mailbox_of, check_user_of,
    domain_check, insert_all, kind_step, lemma_check_all_err, lemma_check_all_ok,
    lemma_orphan_removal, mailbox_check, orphans_of, remove_all, run_spec, user_check,
    MIN_API_TOKEN_LEN,
};
use crate::secrets::{resolve_value, FileMap};
use crate::state::{Alias, Domain, Mailbox, State, User};
use crate::store::{
    select_provisioned, AliasRecord, AliasRecordM, DomainRecord, DomainRecordM, EntityKind,
    MailboxRecord, MailboxRecordM, Store, UserRecord, UserRecordM,
};
use crate::table::{
    contains_key, delete_entry, entry_map, unique_entry_keys, upsert_entry, Entry, EntryM, Row,
    RowM,
};
use crate::text::domain_part;
use vstd::prelude::*;
use vstd::string::StrSliceExecFns;

verus! {

/// Validate one declared user and build its provisioned row.
pub fn check_user(e: &Entry<User>, files: &FileMap) -> (r: Result<
    Entry<Row<UserRecord>>,
    ProvisionError,
>)
    requires
        files.wf(),
    ensures
        match r {
            Ok(en) => check_user_of(e.deep_view().val, files@) is Ok && en.deep_view() == (EntryM {
                key: e.deep_view().key,
                val: RowM {
                    val: check_user_of(e.deep_view().val, files@)->Ok_0,
                    provisioned: true,
                },
            }),
            Err(pe) => check_user_of(e.deep_view().val, files@) == Err::<UserRecordM, ErrM>(
                pe.deep_view(),
            ),
        },
{
    let password_hash = match resolve_value(&e.val.password_hash, files) {
        Ok(s) => s,
        Err(pe) => {
            return Err(pe);
        },
    };
    Ok(
        Entry {
            key: e.key.clone(),
            val: Row {
                val: UserRecord { password_hash, admin: e.val.admin, active: e.val.active },
                provisioned: true,
            },
        },
    )
}

/// Validate one declared domain and build its provisioned row.
pub fn check_domain(e: &Entry<Domain>, state: &State) -> (r: Result<
    Entry<Row<DomainRecord>>,
    ProvisionError,
>)
    ensures
        match r {
            Ok(en) => check_domain_of(e.deep_view().key, e.deep_view().val, state.deep_view().users)
                is Ok && en.deep_view() == (EntryM {
                key: e.deep_view().key,
                val: RowM {
                    val: check_domain_of(
                        e.deep_view().key,
                        e.deep_view().val,
                        state.deep_view().users,
                    )->Ok_0,
                    provisioned: true,
                },
            }),
            Err(pe) => check_domain_of(e.deep_view().key, e.deep_view().val, state.deep_view().users)
                == Err::<DomainRecordM, ErrM>(pe.deep_view()),
        },
{
    if !contains_key(&state.users, &e.val.owner) {
        return Err(
            ProvisionError::DomainOwnerMissing {
                domain: e.key.clone(),
                owner: e.val.owner.clone(),
            },
        );
    }
    let catch_all = match &e.val.catch_all {
        Some(s) => s.clone(),
        None => String::new(),
    };
    Ok(
        Entry {
            key: e.key.clone(),
            val: Row {
                val: DomainRecord {
                    catch_all,
                    public: e.val.public,
                    active: e.val.active,
                    owner: e.val.owner.clone(),
                },
                provisioned: true,
            },
        },
    )
}

/// Validate one declared mailbox and build its provisioned row.
pub fn check_mailbox(e: &Entry<Mailbox>, state: &State, files: &FileMap) -> (r: Result<
    Entry<Row<MailboxRecord>>,
    ProvisionError,
>)
    requires
        files.wf(),
    ensures
        match r {
            Ok(en) => check_mailbox_of(e.deep_view().key, e.deep_view().val, state.deep_view(), files@)
                is Ok && en.deep_view() == (EntryM {
                key: e.deep_view().key,
                val: RowM {
                    val: check_mailbox_of(
                        e.deep_view().key,
                        e.deep_view().val,
                        state.deep_view(),
                        files@,
                    )->Ok_0,
                    provisioned: true,
                },
            }),
            Err(pe) => check_mailbox_of(
                e.deep_view().key,
                e.deep_view().val,
                state.deep_view(),
                files@,
            ) == Err::<MailboxRecordM, ErrM>(pe.deep_view()),
        },
{
    let domain = match domain_part(&e.key) {
        Some(d) => d,
        None => {
            return Err(ProvisionError::MailboxInvalidAddress { mailbox: e.key.clone() });
        },
    };
    if !contains_key(&state.domains, &domain) {
        return Err(ProvisionError::MailboxDomainMissing { mailbox: e.key.clone(), domain });
    }
    if !contains_key(&state.users, &e.val.owner) {
        return Err(
            ProvisionError::MailboxOwnerMissing {
                mailbox: e.key.clone(),
                owner: e.val.owner.clone(),
            },
        );
    }
    let password_hash = match resolve_value(&e.val.password_hash, files) {
        Ok(s) => s,
        Err(pe) => {
            return Err(pe);
        },
    };
    let api_token = match &e.val.api_token {
        None => None,
        Some(t) => {
            let tok = match resolve_value(t, files) {
                Ok(s) => s,
                Err(pe) => {
                    return Err(pe);
                },
            };
            if tok.as_str().unicode_len() < MIN_API_TOKEN_LEN {
                return Err(ProvisionError::MailboxTokenTooShort { mailbox: e.key.clone() });
            }
            Some(tok)
        },
    };
    Ok(
        Entry {
            key: e.key.clone(),
            val: Row {
                val: MailboxRecord {
                    domain,
                    password_hash,
                    api_token,
                    active: e.val.active,
                    owner: e.val.owner.clone(),
                },
                provisioned: true,
            },
        },
    )
}

/// Validate one declared alias and build its provisioned row.
pub fn check_alias(e: &Entry<Alias>, state: &State) -> (r: Result<
    Entry<Row<AliasRecord>>,
    ProvisionError,
>)
    ensures
        match r {
            Ok(en) => check_alias_of(e.deep_view().key, e.deep_view().val, state.deep_view()) is Ok
                && en.deep_view() == (EntryM {
                key: e.deep_view().key,
                val: RowM {
                    val: check_alias_of(e.deep_view().key, e.deep_view().val, state.deep_view())->Ok_0,
                    provisioned: true,
                },
            }),
            Err(pe) => check_alias_of(e.deep_view().key, e.deep_view().val, state.deep_view())
                == Err::<AliasRecordM, ErrM>(pe.deep_view()),
        },
{
    let domain = match domain_part(&e.key) {
        Some(d) => d,
        None => {
            return Err(ProvisionError::AliasInvalidAddress { alias: e.key.clone() });
        },
    };
    if !contains_key(&state.domains, &domain) {
        return Err(ProvisionError::AliasDomainMissing { alias: e.key.clone(), domain });
    }
    if !contains_key(&state.users, &e.val.owner) && !contains_key(&state.mailboxes, &e.val.owner) {
        return Err(
            ProvisionError::AliasOwnerMissing { alias: e.key.clone(), owner: e.val.owner.clone() },
        );
    }
    let comment = match &e.val.comment {
        Some(s) => s.clone(),
        None => String::new(),
    };
    Ok(
        Entry {
            key: e.key.clone(),
            val: Row {
                val: AliasRecord {
                    domain,
                    target: e.val.target.clone(),
                    comment,
                    active: e.val.active,
                    owner: e.val.owner.clone(),
                },
                provisioned: true,
            },
        },
    )
}

/// The provisioned keys that the document no longer declares, in the order
/// the provisioned list gives them.
pub fn orphan_keys<D: DeepView>(provisioned: &Vec<String>, decls: &Vec<Entry<D>>) -> (r: Vec<
    String,
>)
    ensures
        r.deep_view() == orphans_of(provisioned.deep_view(), decls.deep_view()),
{
    let mut r: Vec<String> = Vec::new();
    let mut i: usize = 0;
    proof {
        assert(provisioned.deep_view().take(0) =~= Seq::<Seq<char>>::empty());
        assert(r.deep_view() =~= Seq::<Seq<char>>::empty());
    }
    while i < provisioned.len()
        invariant
            i <= provisioned@.len(),
            r.deep_view() == orphans_of(
                provisioned.deep_view().take(i as int),
                decls.deep_view(),
            ),
        decreases provisioned@.len() - i,
    {
        let ghost pre = r.deep_view();
        if !contains_key(decls, &provisioned[i]) {
            let k = provisioned[i].clone();
            r.push(k);
            proof {
                assert(r.deep_view() =~= pre.push(provisioned.deep_view()[i as int]));
            }
        }
        proof {
            assert(provisioned.deep_view().take(i + 1).drop_last() =~= provisioned.deep_view()
                .take(i as int));
            assert(provisioned.deep_view().take(i + 1).last() == provisioned.deep_view()[i as int]);
        }
        i = i + 1;
    }
    proof {
        assert(provisioned.deep_view().take(provisioned.deep_view().len() as int)
            =~= provisioned.deep_view());
    }
    r
}

/// Delete the listed keys from one table.
fn delete_keys<T: DeepView>(rows: &mut Vec<Entry<Row<T>>>, keys: &Vec<String>)
    requires
        unique_entry_keys(old(rows).deep_view()),
    ensures
        unique_entry_keys(final(rows).deep_view()),
        entry_map(final(rows).deep_view()) == remove_all(
            entry_map(old(rows).deep_view()),
            keys.deep_view(),
        ),
{
    let ghost m0 = entry_map(rows.deep_view());
    let mut i: usize = 0;
    proof {
        assert(keys.deep_view().take(0) =~= Seq::<Seq<char>>::empty());
    }
    while i < keys.len()
        invariant
            i <= keys@.len(),
            unique_entry_keys(rows.deep_view()),
            entry_map(rows.deep_view()) == remove_all(m0, keys.deep_view().take(i as int)),
        decreases keys@.len() - i,
    {
        delete_entry(rows, &keys[i]);
        proof {
            assert(keys.deep_view().take(i + 1).drop_last() =~= keys.deep_view().take(i as int));
            assert(keys.deep_view().take(i + 1).last() == keys.deep_view()[i as int]);
        }
        i = i + 1;
    }
    proof {
        assert(keys.deep_view().take(keys.deep_view().len() as int) =~= keys.deep_view());
    }
}

/// Delete the orphaned keys from one table of the store.
pub fn delete_orphans(store: &mut Store, kind: EntityKind, orphans: &Vec<String>)
    requires
        old(store).wf(),
    ensures
        final(store).wf(),
        match kind {
            EntityKind::Users => final(store)@.users == remove_all(
                old(store)@.users,
                orphans.deep_view(),
            ) && final(store)@.domains == old(store)@.domains && final(store)@.mailboxes == old(
                store,
            )@.mailboxes && final(store)@.aliases == old(store)@.aliases,
            EntityKind::Domains => final(store)@.domains == remove_all(
                old(store)@.domains,
                orphans.deep_view(),
            ) && final(store)@.users == old(store)@.users && final(store)@.mailboxes == old(
                store,
            )@.mailboxes && final(store)@.aliases == old(store)@.aliases,
            EntityKind::Mailboxes => final(store)@.mailboxes == remove_all(
                old(store)@.mailboxes,
                orphans.deep_view(),
            ) && final(store)@.users == old(store)@.users && final(store)@.domains == old(
                store,
            )@.domains && final(store)@.aliases == old(store)@.aliases,
            EntityKind::Aliases => final(store)@.aliases == remove_all(
                old(store)@.aliases,
                orphans.deep_view(),
            ) && final(store)@.users == old(store)@.users && final(store)@.domains == old(
                store,
            )@.domains && final(store)@.mailboxes == old(store)@.mailboxes,
        },
{
    match kind {
        EntityKind::Users => delete_keys(&mut store.users, orphans),
        EntityKind::Domains => delete_keys(&mut store.domains, orphans),
        EntityKind::Mailboxes => delete_keys(&mut store.mailboxes, orphans),
        EntityKind::Aliases => delete_keys(&mut store.aliases, orphans),
    }
}

/// Upsert every row, in order.
fn apply_upserts<T: DeepView>(rows: &mut Vec<Entry<Row<T>>>, ups: Vec<Entry<Row<T>>>)
    requires
        unique_entry_keys(old(rows).deep_view()),
    ensures
        unique_entry_keys(final(rows).deep_view()),
        entry_map(final(rows).deep_view()) == insert_all(
            entry_map(old(rows).deep_view()),
            ups.deep_view(),
        ),
{
    let ghost m0 = entry_map(rows.deep_view());
    let ghost u0 = ups.deep_view();
    let mut rest = ups;
    let ghost mut i: int = 0;
    proof {
        assert(u0.take(0) =~= Seq::<EntryM<RowM<T::V>>>::empty());
        assert(rest.deep_view() =~= u0.skip(0));
    }
    while rest.len() > 0
        invariant
            0 <= i,
            i + rest@.len() == u0.len(),
            rest.deep_view() == u0.skip(i),
            unique_entry_keys(rows.deep_view()),
            entry_map(rows.deep_view()) == insert_all(m0, u0.take(i)),
        decreases rest@.len(),
    {
        let ghost restpre = rest.deep_view();
        let e = rest.remove(0);
        proof {
            assert(e.deep_view() == restpre[0]);
            assert(restpre[0] == u0[i]);
            assert(rest.deep_view() =~= restpre.skip(1));
            assert(restpre.skip(1) =~= u0.skip(i + 1));
        }
        let Entry { key, val } = e;
        upsert_entry(rows, key, val);
        proof {
            assert(u0.take(i + 1).drop_last() =~= u0.take(i));
            assert(u0.take(i + 1).last() == u0[i]);
            i = i + 1;
        }
    }
    proof {
        assert(u0.take(u0.len() as int) =~= u0);
    }
}

/// Validate every declared user in document order and build the rows to
/// write; the first failure wins and nothing is written for a failing
/// section.
pub fn plan_users(state: &State, files: &FileMap) -> (r: Result<
    Vec<Entry<Row<UserRecord>>>,
    ProvisionError,
>)
    requires
        files.wf(),
    ensures
        match r {
            Ok(ups) => check_all(state.deep_view().users, user_check(files@)) == Ok::<
                Seq<EntryM<RowM<UserRecordM>>>,
                ErrM,
            >(ups.deep_view()),
            Err(e) => check_all(state.deep_view().users, user_check(files@)) == Err::<
                Seq<EntryM<RowM<UserRecordM>>>,
                ErrM,
            >(e.deep_view()),
        },
{
    let ghost decls = state.deep_view().users;
    let ghost check = user_check(files@);
    let mut ups: Vec<Entry<Row<UserRecord>>> = Vec::new();
    let mut i: usize = 0;
    while i < state.users.len()
        invariant
            files.wf(),
            decls == state.deep_view().users,
            check == user_check(files@),
            i <= decls.len(),
            ups.deep_view().len() == i,
            forall|j: int| 0 <= j < i ==> check(#[trigger] decls[j]) is Ok,
            forall|j: int|
                0 <= j < i ==> ups.deep_view()[j] == (EntryM {
                    key: (#[trigger] decls[j]).key,
                    val: RowM { val: check(decls[j])->Ok_0, provisioned: true },
                }),
        decreases decls.len() - i,
    {
        let ghost pre = ups.deep_view();
        match check_user(&state.users[i], files) {
            Ok(en) => {
                proof {
                    assert(check(decls[i as int]) == check_user_of(decls[i as int].val, files@));
                }
                ups.push(en);
                proof {
                    assert(ups.deep_view() =~= pre.push(en.deep_view()));
                }
            },
            Err(e) => {
                proof {
                    assert(check(decls[i as int]) == check_user_of(decls[i as int].val, files@));
                    lemma_check_all_err(decls, check, i as int);
                }
                return Err(e);
            },
        }
        i = i + 1;
    }
    proof {
        lemma_check_all_ok(decls, check);
        assert forall|j: int|
            0 <= j < decls.len() implies check_all(decls, check)->Ok_0[j]
            == ups.deep_view()[j] by {
            let d = decls[j];
        }
        assert(check_all(decls, check)->Ok_0 =~= ups.deep_view());
    }
    Ok(ups)
}

/// Validate every declared domain in document order and build the rows to
/// write; the first failure wins.
pub fn plan_domains(state: &State) -> (r: Result<
    Vec<Entry<Row<DomainRecord>>>,
    ProvisionError,
>)
    ensures
        match r {
            Ok(ups) => check_all(state.deep_view().domains, domain_check(state.deep_view())) == Ok::<
                Seq<EntryM<RowM<DomainRecordM>>>,
                ErrM,
            >(ups.deep_view()),
            Err(e) => check_all(state.deep_view().domains, domain_check(state.deep_view())) == Err::<
                Seq<EntryM<RowM<DomainRecordM>>>,
                ErrM,
            >(e.deep_view()),
        },
{
    let ghost decls = state.deep_view().domains;
    let ghost check = domain_check(state.deep_view());
    let mut ups: Vec<Entry<Row<DomainRecord>>> = Vec::new();
    let mut i: usize = 0;
    while i < state.domains.len()
        invariant
            decls == state.deep_view().domains,
            check == domain_check(state.deep_view()),
            i <= decls.len(),
            ups.deep_view().len() == i,
            forall|j: int| 0 <= j < i ==> check(#[trigger] decls[j]) is Ok,
            forall|j: int|
                0 <= j < i ==> ups.deep_view()[j] == (EntryM {
                    key: (#[trigger] decls[j]).key,
                    val: RowM { val: check(decls[j])->Ok_0, provisioned: true },
                }),
        decreases decls.len() - i,
    {
        let ghost pre = ups.deep_view();
        match check_domain(&state.domains[i], state) {
            Ok(en) => {
                proof {
                    assert(check(decls[i as int]) == check_domain_of(
                        decls[i as int].key,
                        decls[i as int].val,
                        state.deep_view().users,
                    ));
                }
                ups.push(en);
                proof {
                    assert(ups.deep_view() =~= pre.push(en.deep_view()));
                }
            },
            Err(e) => {
                proof {
                    assert(check(decls[i as int]) == check_domain_of(
                        decls[i as int].key,
                        decls[i as int].val,
                        state.deep_view().users,
                    ));
                    lemma_check_all_err(decls, check, i as int);
                }
                return Err(e);
            },
        }
        i = i + 1;
    }
    proof {
        lemma_check_all_ok(decls, check);
        assert forall|j: int|
            0 <= j < decls.len() implies check_all(decls, check)->Ok_0[j]
            == ups.deep_view()[j] by {
            let d = decls[j];
        }
        assert(check_all(decls, check)->Ok_0 =~= ups.deep_view());
    }
    Ok(ups)
}

/// Validate every declared mailbox in document order and build the rows to
/// write; the first failure wins.
pub fn plan_mailboxes(state: &State, files: &FileMap) -> (r: Result<
    Vec<Entry<Row<MailboxRecord>>>,
    ProvisionError,
>)
    requires
        files.wf(),
    ensures
        match r {
            Ok(ups) => check_all(state.deep_view().mailboxes, mailbox_check(state.deep_view(), files@))
                == Ok::<Seq<EntryM<RowM<MailboxRecordM>>>, ErrM>(ups.deep_view()),
            Err(e) => check_all(state.deep_view().mailboxes, mailbox_check(state.deep_view(), files@))
                == Err::<Seq<EntryM<RowM<MailboxRecordM>>>, ErrM>(e.deep_view()),
        },
{
    let ghost decls = state.deep_view().mailboxes;
    let ghost check = mailbox_check(state.deep_view(), files@);
    let mut ups: Vec<Entry<Row<MailboxRecord>>> = Vec::new();
    let mut i: usize = 0;
    while i < state.mailboxes.len()
        invariant
            files.wf(),
            decls == state.deep_view().mailboxes,
            check == mailbox_check(state.deep_view(), files@),
            i <= decls.len(),
            ups.deep_view().len() == i,
            forall|j: int| 0 <= j < i ==> check(#[trigger] decls[j]) is Ok,
            forall|j: int|
                0 <= j < i ==> ups.deep_view()[j] == (EntryM {
                    key: (#[trigger] decls[j]).key,
                    val: RowM { val: check(decls[j])->Ok_0, provisioned: true },
                }),
        decreases decls.len() - i,
    {
        let ghost pre = ups.deep_view();
        match check_mailbox(&state.mailboxes[i], state, files) {
            Ok(en) => {
                proof {
                    assert(check(decls[i as int]) == check_mailbox_of(
                        decls[i as int].key,
                        decls[i as int].val,
                        state.deep_view(),
                        files@,
                    ));
                }
                ups.push(en);
                proof {
                    assert(ups.deep_view() =~= pre.push(en.deep_view()));
                }
            },
            Err(e) => {
                proof {
                    assert(check(decls[i as int]) == check_mailbox_of(
                        decls[i as int].key,
                        decls[i as int].val,
                        state.deep_view(),
                        files@,
                    ));
                    lemma_check_all_err(decls, check, i as int);
                }
                return Err(e);
            },
        }
        i = i + 1;
    }
    proof {
        lemma_check_all_ok(decls, check);
        assert forall|j: int|
            0 <= j < decls.len() implies check_all(decls, check)->Ok_0[j]
            == ups.deep_view()[j] by {
            let d = decls[j];
        }
        assert(check_all(decls, check)->Ok_0 =~= ups.deep_view());
    }
    Ok(ups)
}

/// Validate every declared alias in document order and build the rows to
/// write; the first failure wins.
pub fn plan_aliases(state: &State) -> (r: Result<Vec<Entry<Row<AliasRecord>>>, ProvisionError>)
    ensures
        match r {
            Ok(ups) => check_all(state.deep_view().aliases, alias_check(state.deep_view())) == Ok::<
                Seq<EntryM<RowM<AliasRecordM>>>,
                ErrM,
            >(ups.deep_view()),
            Err(e) => check_all(state.deep_view().aliases, alias_check(state.deep_view())) == Err::<
                Seq<EntryM<RowM<AliasRecordM>>>,
                ErrM,
            >(e.deep_view()),
        },
{
    let ghost decls = state.deep_view().aliases;
    let ghost check = alias_check(state.deep_view());
    let mut ups: Vec<Entry<Row<AliasRecord>>> = Vec::new();
    let mut i: usize = 0;
    while i < state.aliases.len()
        invariant
            decls == state.deep_view().aliases,
            check == alias_check(state.deep_view()),
            i <= decls.len(),
            ups.deep_view().len() == i,
            forall|j: int| 0 <= j < i ==> check(#[trigger] decls[j]) is Ok,
            forall|j: int|
                0 <= j < i ==> ups.deep_view()[j] == (EntryM {
                    key: (#[trigger] decls[j]).key,
                    val: RowM { val: check(decls[j])->Ok_0, provisioned: true },
                }),
        decreases decls.len() - i,
    {
        let ghost pre = ups.deep_view();
        match check_alias(&state.aliases[i], state) {
            Ok(en) => {
                proof {
                    assert(check(decls[i as int]) == check_alias_of(
                        decls[i as int].key,
                        decls[i as int].val,
                        state.deep_view(),
                    ));
                }
                ups.push(en);
                proof {
                    assert(ups.deep_view() =~= pre.push(en.deep_view()));
                }
            },
            Err(e) => {
                proof {
                    assert(check(decls[i as int]) == check_alias_of(
                        decls[i as int].key,
                        decls[i as int].val,
                        state.deep_view(),
                    ));
                    lemma_check_all_err(decls, check, i as int);
                }
                return Err(e);
            },
        }
        i = i + 1;
    }
    proof {
        lemma_check_all_ok(decls, check);
        assert forall|j: int|
            0 <= j < decls.len() implies check_all(decls, check)->Ok_0[j]
            == ups.deep_view()[j] by {
            let d = decls[j];
        }
        assert(check_all(decls, check)->Ok_0 =~= ups.deep_view());
    }
    Ok(ups)
}

/// Reconcile the users table: on success it holds exactly the declared
/// users as provisioned rows, with the orphans gone; on failure it is
/// untouched.
pub fn provision_users(store: &mut Store, state: &State, files: &FileMap) -> (r: Result<
    (),
    ProvisionError,
>)
    requires
        old(store).wf(),
        files.wf(),
    ensures
        final(store).wf(),
        match r {
            Ok(_) => kind_step(old(store)@.users, state.deep_view().users, user_check(files@))
                == Ok::<Map<Seq<char>, RowM<UserRecordM>>, ErrM>(final(store)@.users)
                && final(store)@.domains == old(store)@.domains && final(store)@.mailboxes == old(
                store,
            )@.mailboxes && final(store)@.aliases == old(store)@.aliases,
            Err(e) => kind_step(old(store)@.users, state.deep_view().users, user_check(files@))
                == Err::<Map<Seq<char>, RowM<UserRecordM>>, ErrM>(e.deep_view()) && final(store)@
                == old(store)@,
        },
{
    let ups = match plan_users(state, files) {
        Ok(u) => u,
        Err(e) => {
            return Err(e);
        },
    };
    let prov = select_provisioned(store, EntityKind::Users);
    let orphans = orphan_keys(&prov, &state.users);
    delete_orphans(store, EntityKind::Users, &orphans);
    apply_upserts(&mut store.users, ups);
    proof {
        lemma_orphan_removal(old(store).users.deep_view(), state.users.deep_view());
    }
    Ok(())
}

/// Reconcile the domains table; runs after the users table so that owner
/// references are validated against the same document.
pub fn provision_domains(store: &mut Store, state: &State) -> (r: Result<(), ProvisionError>)
    requires
        old(store).wf(),
    ensures
        final(store).wf(),
        match r {
            Ok(_) => kind_step(
                old(store)@.domains,
                state.deep_view().domains,
                domain_check(state.deep_view()),
            ) == Ok::<Map<Seq<char>, RowM<DomainRecordM>>, ErrM>(final(store)@.domains)
                && final(store)@.users == old(store)@.users && final(store)@.mailboxes == old(
                store,
            )@.mailboxes && final(store)@.aliases == old(store)@.aliases,
            Err(e) => kind_step(
                old(store)@.domains,
                state.deep_view().domains,
                domain_check(state.deep_view()),
            ) == Err::<Map<Seq<char>, RowM<DomainRecordM>>, ErrM>(e.deep_view()) && final(store)@
                == old(store)@,
        },
{
    let ups = match plan_domains(state) {
        Ok(u) => u,
        Err(e) => {
            return Err(e);
        },
    };
    let prov = select_provisioned(store, EntityKind::Domains);
    let orphans = orphan_keys(&prov, &state.domains);
    delete_orphans(store, EntityKind::Domains, &orphans);
    apply_upserts(&mut store.domains, ups);
    proof {
        lemma_orphan_removal(old(store).domains.deep_view(), state.domains.deep_view());
    }
    Ok(())
}

/// Reconcile the mailboxes table; runs after users and domains.
pub fn provision_mailboxes(store: &mut Store, state: &State, files: &FileMap) -> (r: Result<
    (),
    ProvisionError,
>)
    requires
        old(store).wf(),
        files.wf(),
    ensures
        final(store).wf(),
        match r {
            Ok(_) => kind_step(
                old(store)@.mailboxes,
                state.deep_view().mailboxes,
                mailbox_check(state.deep_view(), files@),
            ) == Ok::<Map<Seq<char>, RowM<MailboxRecordM>>, ErrM>(final(store)@.mailboxes)
                && final(store)@.users == old(store)@.users && final(store)@.domains == old(
                store,
            )@.domains && final(store)@.aliases == old(store)@.aliases,
            Err(e) => kind_step(
                old(store)@.mailboxes,
                state.deep_view().mailboxes,
                mailbox_check(state.deep_view(), files@),
            ) == Err::<Map<Seq<char>, RowM<MailboxRecordM>>, ErrM>(e.deep_view()) && final(store)@
                == old(store)@,
        },
{
    let ups = match plan_mailboxes(state, files) {
        Ok(u) => u,
        Err(e) => {
            return Err(e);
        },
    };
    let prov = select_provisioned(store, EntityKind::Mailboxes);
    let orphans = orphan_keys(&prov, &state.mailboxes);
    delete_orphans(store, EntityKind::Mailboxes, &orphans);
    apply_upserts(&mut store.mailboxes, ups);
    proof {
        lemma_orphan_removal(old(store).mailboxes.deep_view(), state.mailboxes.deep_view());
    }
    Ok(())
}

/// Reconcile the aliases table; runs last.
pub fn provision_aliases(store: &mut Store, state: &State) -> (r: Result<(), ProvisionError>)
    requires
        old(store).wf(),
    ensures
        final(store).wf(),
        match r {
            Ok(_) => kind_step(
                old(store)@.aliases,
                state.deep_view().aliases,
                alias_check(state.deep_view()),
            ) == Ok::<Map<Seq<char>, RowM<AliasRecordM>>, ErrM>(final(store)@.aliases)
                && final(store)@.users == old(store)@.users && final(store)@.domains == old(
                store,
            )@.domains && final(store)@.mailboxes == old(store)@.mailboxes,
            Err(e) => kind_step(
                old(store)@.aliases,
                state.deep_view().aliases,
                alias_check(state.deep_view()),
            ) == Err::<Map<Seq<char>, RowM<AliasRecordM>>, ErrM>(e.deep_view()) && final(store)@
                == old(store)@,
        },
{
    let ups = match plan_aliases(state) {
        Ok(u) => u,
        Err(e) => {
            return Err(e);
        },
    };
    let prov = select_provisioned(store, EntityKind::Aliases);
    let orphans = orphan_keys(&prov, &state.aliases);
    delete_orphans(store, EntityKind::Aliases, &orphans);
    apply_upserts(&mut store.aliases, ups);
    proof {
        lemma_orphan_removal(old(store).aliases.deep_view(), state.aliases.deep_view());
    }
    Ok(())
}

/// One whole reconciliation run: users, domains, mailboxes, aliases, in
/// that order, stopping at the first failure. Without a document the run
/// is a no-op success — provisioning is opt-in.
pub fn provision(store: &mut Store, state: &Option<State>, files: &FileMap) -> (r: Result<
    (),
    ProvisionError,
>)
    requires
        old(store).wf(),
        files.wf(),
    ensures
        final(store).wf(),
        match state {
            None => r is Ok && final(store)@ == old(store)@,
            Some(doc) => (match r {
                Ok(_) => None::<ErrM>,
                Err(e) => Some(e.deep_view()),
            }, final(store)@) == run_spec(old(store)@, doc.deep_view(), files@),
        },
{
    let doc = match state {
        None => {
            return Ok(());
        },
        Some(d) => d,
    };
    match provision_users(store, doc, files) {
        Err(e) => {
            return Err(e);
        },
        Ok(_) => {},
    }
    match provision_domains(store, doc) {
        Err(e) => {
            return Err(e);
        },
        Ok(_) => {},
    }
    match provision_mailboxes(store, doc, files) {
        Err(e) => {
            return Err(e);
        },
        Ok(_) => {},
    }
    match provision_aliases(store, doc) {
        Err(e) => {
            return Err(e);
        },
        Ok(_) => {},
    }
    Ok(())
}

} // verus!
