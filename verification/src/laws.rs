//! The guarantees the reconciliation engine gives, stated over the run
//! semantics of [`crate::model`] and proved once and for all: what a
//! successful kind step leaves in a table, idempotence of a whole run,
//! convergence of orphan deletion, dependency-order enforcement, alias
//! owner validation, and the overwrite behaviour of upserts.

use crate::errors::ErrM;
use crate::model::{
    alias_check, check_alias_of, check_mailbox_of, check_all, domain_check, insert_all, kind_step,
    lemma_check_all_has_err, lemma_check_all_ok_inv, lemma_insert_all, mailbox_check, orphan_set,
    run_spec, user_check,
};
use crate::state::{AliasM, StateM};
use crate::store::StoreM;
use crate::table::{has_entry_key, unique_entry_keys, EntryM, RowM};
use crate::text::{domain_of, find_char};
use vstd::prelude::*;

verus! {

/// What a successful kind step leaves in the table: every declared entity
/// sits there as its checked row, marked provisioned; every other key is
/// exactly the manual row that was there before; nothing else is
/// provisioned.
pub proof fn lemma_kind_step_ok<DV, TV>(
    tbl: Map<Seq<char>, RowM<TV>>,
    decls: Seq<EntryM<DV>>,
    check: spec_fn(EntryM<DV>) -> Result<TV, ErrM>,
)
    requires
        unique_entry_keys(decls),
        kind_step(tbl, decls, check) is Ok,
    ensures
        forall|i: int|
            0 <= i < decls.len() ==> {
                let tbl2 = kind_step(tbl, decls, check)->Ok_0;
                tbl2.contains_key((#[trigger] decls[i]).key) && tbl2[decls[i].key] == (RowM {
                    val: check(decls[i])->Ok_0,
                    provisioned: true,
                })
            },
        forall|k: Seq<char>|
            !has_entry_key(decls, k) ==> (#[trigger] kind_step(tbl, decls, check)->Ok_0.contains_key(
                k,
            ) <==> (tbl.contains_key(k) && !tbl[k].provisioned)),
        forall|k: Seq<char>|
            !has_entry_key(decls, k) && tbl.contains_key(k) && !tbl[k].provisioned
                ==> #[trigger] kind_step(tbl, decls, check)->Ok_0[k] == tbl[k],
        forall|k: Seq<char>|
            #[trigger] kind_step(tbl, decls, check)->Ok_0.contains_key(k) && kind_step(
                tbl,
                decls,
                check,
            )->Ok_0[k].provisioned ==> has_entry_key(decls, k),
{
    let rows = check_all(decls, check)->Ok_0;
    let base = tbl.remove_keys(orphan_set(tbl, decls));
    let tbl2 = kind_step(tbl, decls, check)->Ok_0;
    lemma_check_all_ok_inv(decls, check);
    assert forall|i: int, j: int|
        0 <= i < j < rows.len() implies (#[trigger] rows[i]).key != (#[trigger] rows[j]).key by {
        let a = decls[i];
        let b = decls[j];
    }
    assert(unique_entry_keys(rows));
    lemma_insert_all(base, rows);
    assert forall|k: Seq<char>| #[trigger] has_entry_key(rows, k) <==> has_entry_key(decls, k) by {
        if has_entry_key(rows, k) {
            let i = choose|i: int| 0 <= i < rows.len() && rows[i].key == k;
            assert(decls[i].key == k);
        }
        if has_entry_key(decls, k) {
            let i = choose|i: int| 0 <= i < decls.len() && decls[i].key == k;
            assert(rows[i].key == k);
        }
    }
    assert forall|i: int|
        0 <= i < decls.len() implies tbl2.contains_key((#[trigger] decls[i]).key)
        && tbl2[decls[i].key] == (RowM { val: check(decls[i])->Ok_0, provisioned: true }) by {
        assert(rows[i].key == decls[i].key);
        assert(tbl2[rows[i].key] == rows[i].val);
        assert(has_entry_key(rows, decls[i].key));
    }
    assert forall|k: Seq<char>|
        !has_entry_key(decls, k) implies (#[trigger] tbl2.contains_key(k) <==> (tbl.contains_key(k)
        && !tbl[k].provisioned)) by {
        assert(!has_entry_key(rows, k));
        assert(tbl2.contains_key(k) == base.contains_key(k));
        assert(base.contains_key(k) <==> tbl.contains_key(k) && !orphan_set(tbl, decls).contains(
            k,
        ));
    }
    assert forall|k: Seq<char>|
        !has_entry_key(decls, k) && tbl.contains_key(k) && !tbl[k].provisioned
        implies #[trigger] tbl2[k] == tbl[k] by {
        assert(!has_entry_key(rows, k));
        assert(base.contains_key(k));
        assert(tbl2[k] == base[k]);
        assert(base[k] == tbl[k]);
    }
}

/// A kind step that succeeded is a fixed point: running it again on its
/// own result changes nothing.
pub proof fn lemma_kind_step_idempotent<DV, TV>(
    tbl: Map<Seq<char>, RowM<TV>>,
    decls: Seq<EntryM<DV>>,
    check: spec_fn(EntryM<DV>) -> Result<TV, ErrM>,
)
    requires
        unique_entry_keys(decls),
        kind_step(tbl, decls, check) is Ok,
    ensures
        kind_step(kind_step(tbl, decls, check)->Ok_0, decls, check) == kind_step(tbl, decls, check),
{
    let tbl2 = kind_step(tbl, decls, check)->Ok_0;
    let rows = check_all(decls, check)->Ok_0;
    lemma_kind_step_ok(tbl, decls, check);
    lemma_check_all_ok_inv(decls, check);
    assert forall|i: int, j: int|
        0 <= i < j < rows.len() implies (#[trigger] rows[i]).key != (#[trigger] rows[j]).key by {
        let a = decls[i];
        let b = decls[j];
    }
    assert(unique_entry_keys(rows));
    assert(orphan_set(tbl2, decls) =~= Set::<Seq<char>>::empty());
    let base2 = tbl2.remove_keys(orphan_set(tbl2, decls));
    assert(base2 =~= tbl2);
    lemma_insert_all(tbl2, rows);
    assert forall|k: Seq<char>| #[trigger] has_entry_key(rows, k) implies has_entry_key(decls, k) by {
        if has_entry_key(rows, k) {
            let i = choose|i: int| 0 <= i < rows.len() && rows[i].key == k;
            assert(decls[i].key == k);
        }
    }
    assert(insert_all(tbl2, rows) =~= tbl2) by {
        assert forall|k: Seq<char>|
            #[trigger] insert_all(tbl2, rows).contains_key(k) <==> tbl2.contains_key(k) by {
            if has_entry_key(rows, k) {
                let i = choose|i: int| 0 <= i < rows.len() && rows[i].key == k;
                assert(decls[i].key == k);
                assert(tbl2.contains_key(decls[i].key));
            }
        }
        assert forall|k: Seq<char>|
            insert_all(tbl2, rows).contains_key(k) implies #[trigger] insert_all(tbl2, rows)[k]
            == tbl2[k] by {
            if has_entry_key(rows, k) {
                let i = choose|i: int| 0 <= i < rows.len() && rows[i].key == k;
                assert(insert_all(tbl2, rows)[rows[i].key] == rows[i].val);
                assert(decls[i].key == k);
                assert(tbl2[decls[i].key] == (RowM {
                    val: check(decls[i])->Ok_0,
                    provisioned: true,
                }));
                assert(rows[i].val == (RowM { val: check(decls[i])->Ok_0, provisioned: true }));
            }
        }
    }
}

/// Idempotence: a successful run is a fixed point. Re-running the same
/// document against the store the run produced succeeds and changes
/// nothing.
pub proof fn lemma_provision_idempotent(
    st: StoreM,
    doc: StateM,
    files: Map<Seq<char>, Seq<char>>,
)
    requires
        doc.wf(),
        run_spec(st, doc, files).0 is None,
    ensures
        run_spec(run_spec(st, doc, files).1, doc, files) == (
            None::<ErrM>,
            run_spec(st, doc, files).1,
        ),
{
    let r1 = run_spec(st, doc, files);
    let u2 = kind_step(st.users, doc.users, user_check(files));
    assert(u2 is Ok);
    let st1 = StoreM { users: u2->Ok_0, ..st };
    let d2 = kind_step(st1.domains, doc.domains, domain_check(doc));
    assert(d2 is Ok);
    let st2 = StoreM { domains: d2->Ok_0, ..st1 };
    let m2 = kind_step(st2.mailboxes, doc.mailboxes, mailbox_check(doc, files));
    assert(m2 is Ok);
    let st3 = StoreM { mailboxes: m2->Ok_0, ..st2 };
    let a2 = kind_step(st3.aliases, doc.aliases, alias_check(doc));
    assert(a2 is Ok);
    let st4 = StoreM { aliases: a2->Ok_0, ..st3 };
    assert(r1 == (None::<ErrM>, st4));

    lemma_kind_step_idempotent(st.users, doc.users, user_check(files));
    assert(kind_step(st4.users, doc.users, user_check(files)) == Ok::<
        Map<Seq<char>, RowM<crate::store::UserRecordM>>,
        ErrM,
    >(st4.users));
    lemma_kind_step_idempotent(st1.domains, doc.domains, domain_check(doc));
    assert(kind_step(st4.domains, doc.domains, domain_check(doc)) == Ok::<
        Map<Seq<char>, RowM<crate::store::DomainRecordM>>,
        ErrM,
    >(st4.domains));
    lemma_kind_step_idempotent(st2.mailboxes, doc.mailboxes, mailbox_check(doc, files));
    assert(kind_step(st4.mailboxes, doc.mailboxes, mailbox_check(doc, files)) == Ok::<
        Map<Seq<char>, RowM<crate::store::MailboxRecordM>>,
        ErrM,
    >(st4.mailboxes));
    lemma_kind_step_idempotent(st3.aliases, doc.aliases, alias_check(doc));
    assert(kind_step(st4.aliases, doc.aliases, alias_check(doc)) == Ok::<
        Map<Seq<char>, RowM<crate::store::AliasRecordM>>,
        ErrM,
    >(st4.aliases));

    assert(StoreM { users: st4.users, ..st4 } == st4);
    assert(run_spec(st4, doc, files) == (None::<ErrM>, st4));
}

/// Orphan convergence: after a successful run, a key no longer declared is
/// gone from its table if its row was provisioned, and is exactly the old
/// row if it was manual. Stated here for every entity kind at once.
pub proof fn lemma_orphan_convergence(
    st: StoreM,
    doc: StateM,
    files: Map<Seq<char>, Seq<char>>,
    k: Seq<char>,
)
    requires
        doc.wf(),
        run_spec(st, doc, files).0 is None,
    ensures
        !has_entry_key(doc.users, k) && st.users.contains_key(k) && st.users[k].provisioned
            ==> !run_spec(st, doc, files).1.users.contains_key(k),
        !has_entry_key(doc.users, k) && st.users.contains_key(k) && !st.users[k].provisioned
            ==> run_spec(st, doc, files).1.users.contains_key(k) && run_spec(
            st,
            doc,
            files,
        ).1.users[k] == st.users[k],
        !has_entry_key(doc.domains, k) && st.domains.contains_key(k) && st.domains[k].provisioned
            ==> !run_spec(st, doc, files).1.domains.contains_key(k),
        !has_entry_key(doc.domains, k) && st.domains.contains_key(k) && !st.domains[k].provisioned
            ==> run_spec(st, doc, files).1.domains.contains_key(k) && run_spec(
            st,
            doc,
            files,
        ).1.domains[k] == st.domains[k],
        !has_entry_key(doc.mailboxes, k) && st.mailboxes.contains_key(k)
            && st.mailboxes[k].provisioned ==> !run_spec(st, doc, files).1.mailboxes.contains_key(
            k,
        ),
        !has_entry_key(doc.mailboxes, k) && st.mailboxes.contains_key(k)
            && !st.mailboxes[k].provisioned ==> run_spec(st, doc, files).1.mailboxes.contains_key(k)
            && run_spec(st, doc, files).1.mailboxes[k] == st.mailboxes[k],
        !has_entry_key(doc.aliases, k) && st.aliases.contains_key(k) && st.aliases[k].provisioned
            ==> !run_spec(st, doc, files).1.aliases.contains_key(k),
        !has_entry_key(doc.aliases, k) && st.aliases.contains_key(k) && !st.aliases[k].provisioned
            ==> run_spec(st, doc, files).1.aliases.contains_key(k) && run_spec(
            st,
            doc,
            files,
        ).1.aliases[k] == st.aliases[k],
{
    let u2 = kind_step(st.users, doc.users, user_check(files));
    assert(u2 is Ok);
    let st1 = StoreM { users: u2->Ok_0, ..st };
    let d2 = kind_step(st1.domains, doc.domains, domain_check(doc));
    assert(d2 is Ok);
    let st2 = StoreM { domains: d2->Ok_0, ..st1 };
    let m2 = kind_step(st2.mailboxes, doc.mailboxes, mailbox_check(doc, files));
    assert(m2 is Ok);
    let st3 = StoreM { mailboxes: m2->Ok_0, ..st2 };
    let a2 = kind_step(st3.aliases, doc.aliases, alias_check(doc));
    assert(a2 is Ok);
    lemma_kind_step_ok(st.users, doc.users, user_check(files));
    lemma_kind_step_ok(st1.domains, doc.domains, domain_check(doc));
    lemma_kind_step_ok(st2.mailboxes, doc.mailboxes, mailbox_check(doc, files));
    lemma_kind_step_ok(st3.aliases, doc.aliases, alias_check(doc));
}

/// Dependency-order enforcement: a domain owned by an undeclared user makes
/// the run fail before any domain, mailbox or alias table is touched.
pub proof fn lemma_dependency_order(
    st: StoreM,
    doc: StateM,
    files: Map<Seq<char>, Seq<char>>,
    i: int,
)
    requires
        kind_step(st.users, doc.users, user_check(files)) is Ok,
        0 <= i < doc.domains.len(),
        !has_entry_key(doc.users, doc.domains[i].val.owner),
    ensures
        run_spec(st, doc, files).0 is Some,
        run_spec(st, doc, files).1.domains == st.domains,
        run_spec(st, doc, files).1.mailboxes == st.mailboxes,
        run_spec(st, doc, files).1.aliases == st.aliases,
{
    assert(domain_check(doc)(doc.domains[i]) is Err);
    lemma_check_all_has_err(doc.domains, domain_check(doc), i);
    let u2 = kind_step(st.users, doc.users, user_check(files));
    let st1 = StoreM { users: u2->Ok_0, ..st };
    assert(kind_step(st1.domains, doc.domains, domain_check(doc)) is Err);
}

/// Alias owner validation: with a well-formed address on a declared
/// domain, an alias fails exactly on an owner that is neither a declared
/// user nor a declared mailbox, and a declared mailbox as owner passes.
pub proof fn lemma_alias_owner_validation(name: Seq<char>, a: AliasM, doc: StateM)
    requires
        find_char(name, '@') is Some,
        has_entry_key(doc.domains, domain_of(name)),
    ensures
        !has_entry_key(doc.users, a.owner) && !has_entry_key(doc.mailboxes, a.owner)
            ==> check_alias_of(name, a, doc) == Err::<crate::store::AliasRecordM, ErrM>(
            ErrM::AliasOwnerMissing { alias: name, owner: a.owner },
        ),
        has_entry_key(doc.mailboxes, a.owner) ==> check_alias_of(name, a, doc) is Ok,
{
}

/// Upsert overwrite: after a successful run, every declared mailbox's row
/// is exactly its checked row — re-declaring an existing mailbox with one
/// changed field rewrites that row alone, re-marked provisioned — while a
/// manual row whose key is not declared is left exactly as it was.
pub proof fn lemma_upsert_overwrite(
    st: StoreM,
    doc: StateM,
    files: Map<Seq<char>, Seq<char>>,
    i: int,
)
    requires
        doc.wf(),
        run_spec(st, doc, files).0 is None,
        0 <= i < doc.mailboxes.len(),
    ensures
        run_spec(st, doc, files).1.mailboxes.contains_key(doc.mailboxes[i].key),
        run_spec(st, doc, files).1.mailboxes[doc.mailboxes[i].key] == (RowM {
            val: check_mailbox_of(doc.mailboxes[i].key, doc.mailboxes[i].val, doc, files)->Ok_0,
            provisioned: true,
        }),
        forall|k: Seq<char>|
            !has_entry_key(doc.mailboxes, k) && st.mailboxes.contains_key(k)
                && !st.mailboxes[k].provisioned ==> run_spec(st, doc, files).1.mailboxes.contains_key(
                k,
            ) && run_spec(st, doc, files).1.mailboxes[k] == st.mailboxes[k],
{
    let u2 = kind_step(st.users, doc.users, user_check(files));
    assert(u2 is Ok);
    let st1 = StoreM { users: u2->Ok_0, ..st };
    let d2 = kind_step(st1.domains, doc.domains, domain_check(doc));
    assert(d2 is Ok);
    let st2 = StoreM { domains: d2->Ok_0, ..st1 };
    let m2 = kind_step(st2.mailboxes, doc.mailboxes, mailbox_check(doc, files));
    assert(m2 is Ok);
    lemma_kind_step_ok(st2.mailboxes, doc.mailboxes, mailbox_check(doc, files));
    assert(mailbox_check(doc, files)(doc.mailboxes[i]) == check_mailbox_of(
        doc.mailboxes[i].key,
        doc.mailboxes[i].val,
        doc,
        files,
    ));
}

} // verus!
