//! Canonical serialization of the aggregate.
//!
//! `canon` turns an aggregate into its canonical structural form (see
//! `value`): a keyed object whose field order and key set are fixed, so
//! that two equal aggregates always serialize identically, and the
//! diff/patch laws of `patch` apply to it. Every object it produces has
//! distinct keys (`lemma_canon_wf`).

use vstd::prelude::*;

use crate::model::DM;
use crate::model::DoiEntry;
use crate::model::ExportEntry;
use crate::model::JournalPage;
use crate::model::Msg;
use crate::model::MsgContent;
use crate::model::Person;
use crate::model::S_lf;
use crate::policy::Authority;
use crate::policy::ContentPolicy;
use crate::patch::OpKind;
use crate::patch::OpS;
use crate::patch::SegS;
use crate::patch::apply_patch_s;
use crate::patch::diff_arr;
use crate::patch::diff_obj;
use crate::patch::diff_s;
use crate::patch::lemma_diff_arr_single;
use crate::patch::lemma_diff_obj_single;
use crate::patch::lemma_diff_round_trip;
use crate::patch::lemma_diff_self_empty;
use crate::patch::prefix_ops;
use crate::patch::same_keys;
use crate::value::Field;
use crate::value::FieldS;
use crate::value::Value;
use crate::value::ValueS;
use crate::value::arr_model;
use crate::value::obj_model;
use crate::value::wf;

verus! {

broadcast use vstd::std_specs::vec::group_vec_axioms;

/// An optional text: the text, or null.
pub open spec fn opt_str_s(o: Option<String>) -> ValueS {
    match o {
        Some(s) => ValueS::Str(s@),
        None => ValueS::Null,
    }
}

/// An optional id: the id, or null.
pub open spec fn opt_id_s(o: Option<u64>) -> ValueS {
    match o {
        Some(i) => ValueS::Int(i),
        None => ValueS::Null,
    }
}

/// A 128-bit token as its high and low halves.
pub open spec fn token_s(t: u128) -> ValueS {
    ValueS::Arr(seq![ValueS::Int((t >> 64) as u64), ValueS::Int(t as u64)])
}

/// A list of ids as an array of integers.
pub open spec fn ids_s(v: Seq<u64>) -> ValueS {
    ValueS::Arr(Seq::new(v.len(), |i: int| ValueS::Int(v[i])))
}

/// An authority's canonical name.
pub open spec fn authority_name(a: Authority) -> Seq<char> {
    match a {
        Authority::MediaDevices => "media_devices"@,
        Authority::Network => "network"@,
        Authority::Storage => "storage"@,
        Authority::S_lfApi => "s_lf_api"@,
    }
}

/// A policy as the array of its authorities' names.
pub open spec fn policy_s(p: ContentPolicy) -> ValueS {
    ValueS::Arr(Seq::new(p.authorities@.len(), |i: int| ValueS::Str(authority_name(p.authorities@[i]))))
}

/// A person as a keyed object.
pub open spec fn person_s(p: Person) -> ValueS {
    ValueS::Obj(
        seq![
            FieldS { key: "id"@, val: ValueS::Int(p.id) },
            FieldS { key: "card"@, val: opt_str_s(p.card.vcard_text) },
            FieldS { key: "profile"@, val: opt_id_s(p.profile) },
            FieldS { key: "cached_profile_image"@, val: ValueS::Bytes(p.cached_profile_image@) },
        ],
    )
}

/// A message payload as a tagged pair: its kind, then its value.
pub open spec fn content_s(c: MsgContent) -> ValueS {
    match c {
        MsgContent::Embed(s) => ValueS::Arr(seq![ValueS::Str("embed"@), ValueS::Str(s@)]),
        MsgContent::Ref { caption, id } => ValueS::Arr(
            seq![ValueS::Str("ref"@), opt_str_s(caption), ValueS::Int(id)],
        ),
        MsgContent::Txt(s) => ValueS::Arr(seq![ValueS::Str("txt"@), ValueS::Str(s@)]),
        MsgContent::Data(b) => ValueS::Arr(seq![ValueS::Str("data"@), ValueS::Bytes(b@)]),
        MsgContent::Img(b) => ValueS::Arr(seq![ValueS::Str("img"@), ValueS::Bytes(b@)]),
        MsgContent::Hyperlink { url, text } => ValueS::Arr(
            seq![ValueS::Str("hyperlink"@), ValueS::Str(url@), opt_str_s(text)],
        ),
        MsgContent::Composite(ids) => ValueS::Arr(seq![ValueS::Str("composite"@), ids_s(ids@)]),
        MsgContent::Dynamic(dc, policy) => ValueS::Arr(
            seq![
                ValueS::Str("dynamic"@),
                ValueS::Bytes(dc.program_blob@),
                ValueS::Bytes(dc.program_state@),
                policy_s(policy),
            ],
        ),
        MsgContent::Html(b) => ValueS::Arr(seq![ValueS::Str("html"@), ValueS::Bytes(b@)]),
        MsgContent::File(mime, b) => ValueS::Arr(
            seq![ValueS::Str("file"@), ValueS::Str(mime@), ValueS::Bytes(b@)],
        ),
        MsgContent::Person(p) => ValueS::Arr(seq![ValueS::Str("person"@), person_s(p)]),
        MsgContent::Doi(s) => ValueS::Arr(seq![ValueS::Str("doi"@), ValueS::Str(s@)]),
        MsgContent::Filesystem(b) => ValueS::Arr(
            seq![ValueS::Str("filesystem"@), ValueS::Bytes(b@)],
        ),
        MsgContent::Date(s, t) => ValueS::Arr(
            seq![ValueS::Str("date"@), ValueS::Str(s@), ValueS::Time(t)],
        ),
        MsgContent::TemporalObligation => ValueS::Arr(
            seq![ValueS::Str("temporal_obligation"@), ValueS::Null],
        ),
        MsgContent::Dm(id) => ValueS::Arr(seq![ValueS::Str("dm"@), ValueS::Int(id)]),
    }
}

/// A message as a keyed object.
pub open spec fn msg_s(m: Msg) -> ValueS {
    ValueS::Obj(
        seq![
            FieldS { key: "id"@, val: ValueS::Int(m.id) },
            FieldS { key: "authored_at"@, val: ValueS::Time(m.authored_at) },
            FieldS { key: "content"@, val: content_s(m.content) },
        ],
    )
}

/// A thread as a keyed object.
pub open spec fn dm_s(d: DM) -> ValueS {
    ValueS::Obj(
        seq![
            FieldS { key: "name"@, val: ValueS::Str(d.name@) },
            FieldS { key: "scroll_top"@, val: ValueS::Int(d.scroll_state.top) },
            FieldS { key: "scroll_offset"@, val: ValueS::Int(d.scroll_state.offset) },
            FieldS { key: "msgs_in_sequence"@, val: ids_s(d.msgs_in_sequence@) },
        ],
    )
}

/// A journal page as a keyed object.
pub open spec fn journal_s(j: JournalPage) -> ValueS {
    ValueS::Obj(
        seq![
            FieldS { key: "title"@, val: ValueS::Str(j.title@) },
            FieldS { key: "msgs_in_sequence"@, val: ids_s(j.msgs_in_sequence@) },
        ],
    )
}

/// An archived work as a keyed object.
pub open spec fn doi_s(d: DoiEntry) -> ValueS {
    ValueS::Obj(
        seq![
            FieldS { key: "doi"@, val: ValueS::Str(d.doi@) },
            FieldS { key: "data"@, val: ValueS::Bytes(d.data@) },
        ],
    )
}

/// A minted token entry as a keyed object.
pub open spec fn export_s(e: ExportEntry) -> ValueS {
    ValueS::Obj(
        seq![
            FieldS { key: "id"@, val: ValueS::Int(e.id) },
            FieldS { key: "token"@, val: token_s(e.token) },
        ],
    )
}

/// The aggregate's canonical form: one keyed object with a fixed field
/// order.
pub open spec fn canon_s(s: S_lf) -> ValueS {
    ValueS::Obj(
        seq![
            FieldS { key: "nonce"@, val: ValueS::Int(s.nonce) },
            FieldS { key: "state_cookie"@, val: ValueS::Int(s.state_cookie) },
            FieldS {
                key: "export_map"@,
                val: ValueS::Arr(
                    Seq::new(s.export_map@.len(), |i: int| export_s(s.export_map@[i])),
                ),
            },
            FieldS { key: "username"@, val: ValueS::Str(s.username@) },
            FieldS {
                key: "pronouns"@,
                val: ValueS::Arr(
                    seq![
                        ValueS::Str(s.pronouns.0@),
                        ValueS::Str(s.pronouns.1@),
                        ValueS::Str(s.pronouns.2@),
                    ],
                ),
            },
            FieldS { key: "me"@, val: person_s(s.me) },
            FieldS {
                key: "msgs"@,
                val: ValueS::Arr(Seq::new(s.msgs@.len(), |i: int| msg_s(s.msgs@[i]))),
            },
            FieldS {
                key: "dm_storage"@,
                val: ValueS::Arr(Seq::new(s.dm_storage@.len(), |i: int| dm_s(s.dm_storage@[i]))),
            },
            FieldS {
                key: "journal_storage"@,
                val: ValueS::Arr(
                    Seq::new(s.journal_storage@.len(), |i: int| journal_s(s.journal_storage@[i])),
                ),
            },
            FieldS {
                key: "doi_storage"@,
                val: ValueS::Arr(
                    Seq::new(s.doi_storage@.len(), |i: int| doi_s(s.doi_storage@[i])),
                ),
            },
        ],
    )
}

/// A value that is neither an array nor an object is well-formed.
proof fn lemma_wf_leaf(v: ValueS)
    requires
        !(v is Arr),
        !(v is Obj),
    ensures
        wf(v),
{
}

/// An array of integers is well-formed.
proof fn lemma_wf_ids(v: Seq<u64>)
    ensures
        wf(ids_s(v)),
{
    let xs = ids_s(v)->Arr_0;
    assert forall|i: int| 0 <= i < xs.len() implies wf(#[trigger] xs[i]) by {
        assert(xs[i] == ValueS::Int(v[i]));
        lemma_wf_leaf(xs[i]);
    }
}

/// An array of authority names is well-formed.
proof fn lemma_wf_policy(p: ContentPolicy)
    ensures
        wf(policy_s(p)),
{
    let xs = policy_s(p)->Arr_0;
    assert forall|i: int| 0 <= i < xs.len() implies wf(#[trigger] xs[i]) by {
        assert(xs[i] == ValueS::Str(authority_name(p.authorities@[i])));
        lemma_wf_leaf(xs[i]);
    }
}

/// A serialized person is well-formed.
proof fn lemma_person_wf(p: Person)
    ensures
        wf(person_s(p)),
{
    reveal_strlit("id");
    reveal_strlit("card");
    reveal_strlit("profile");
    reveal_strlit("cached_profile_image");
    let fs = person_s(p)->Obj_0;
    assert(fs[0].key == "id"@);
    assert(fs[1].key == "card"@);
    assert(fs[2].key == "profile"@);
    assert(fs[3].key == "cached_profile_image"@);
    assert(fs[0].key != fs[1].key);
    assert(fs[0].key != fs[2].key);
    assert(fs[0].key != fs[3].key);
    assert(fs[1].key != fs[2].key);
    assert(fs[1].key != fs[3].key);
    assert(fs[2].key != fs[3].key);
    assert(forall|i: int, j: int| 0 <= i < j < fs.len() ==> fs[i].key != fs[j].key);
    assert forall|i: int| 0 <= i < fs.len() implies wf(#[trigger] fs[i].val) by {
        lemma_wf_leaf(fs[i].val);
    }
}

/// A serialized payload is well-formed.
proof fn lemma_content_wf(c: MsgContent)
    ensures
        wf(content_s(c)),
{
    let xs = content_s(c)->Arr_0;
    match c {
        MsgContent::Composite(ids) => {
            lemma_wf_ids(ids@);
        },
        MsgContent::Dynamic(dc, policy) => {
            lemma_wf_policy(policy);
        },
        MsgContent::Person(p) => {
            lemma_person_wf(p);
        },
        _ => {},
    }
    assert forall|i: int| 0 <= i < xs.len() implies wf(#[trigger] xs[i]) by {
        let v = xs[i];
        if v is Arr || v is Obj {
            match c {
                MsgContent::Composite(ids) => {
                    assert(v == ids_s(ids@));
                },
                MsgContent::Dynamic(dc, policy) => {
                    assert(v == policy_s(policy));
                },
                MsgContent::Person(p) => {
                    assert(v == person_s(p));
                },
                _ => {},
            }
        } else {
            lemma_wf_leaf(v);
        }
    }
}

/// A serialized message is well-formed.
proof fn lemma_msg_wf(m: Msg)
    ensures
        wf(msg_s(m)),
{
    reveal_strlit("id");
    reveal_strlit("authored_at");
    reveal_strlit("content");
    lemma_content_wf(m.content);
    let fs = msg_s(m)->Obj_0;
    assert(fs[0].key == "id"@);
    assert(fs[1].key == "authored_at"@);
    assert(fs[2].key == "content"@);
    assert(fs[0].key != fs[1].key);
    assert(fs[0].key != fs[2].key);
    assert(fs[1].key != fs[2].key);
    assert(forall|i: int, j: int| 0 <= i < j < fs.len() ==> fs[i].key != fs[j].key);
    assert forall|i: int| 0 <= i < fs.len() implies wf(#[trigger] fs[i].val) by {
        if !(fs[i].val is Arr) && !(fs[i].val is Obj) {
            lemma_wf_leaf(fs[i].val);
        } else {
            assert(fs[i].val == content_s(m.content));
        }
    }
}

/// A serialized thread is well-formed.
proof fn lemma_dm_wf(d: DM)
    ensures
        wf(dm_s(d)),
{
    reveal_strlit("name");
    reveal_strlit("scroll_top");
    reveal_strlit("scroll_offset");
    reveal_strlit("msgs_in_sequence");
    lemma_wf_ids(d.msgs_in_sequence@);
    let fs = dm_s(d)->Obj_0;
    assert(fs[0].key == "name"@);
    assert(fs[1].key == "scroll_top"@);
    assert(fs[2].key == "scroll_offset"@);
    assert(fs[3].key == "msgs_in_sequence"@);
    assert(fs[0].key != fs[1].key);
    assert(fs[0].key != fs[2].key);
    assert(fs[0].key != fs[3].key);
    assert(fs[1].key != fs[2].key);
    assert(fs[1].key != fs[3].key);
    assert(fs[2].key != fs[3].key);
    assert(forall|i: int, j: int| 0 <= i < j < fs.len() ==> fs[i].key != fs[j].key);
    assert forall|i: int| 0 <= i < fs.len() implies wf(#[trigger] fs[i].val) by {
        if !(fs[i].val is Arr) && !(fs[i].val is Obj) {
            lemma_wf_leaf(fs[i].val);
        } else {
            assert(fs[i].val == ids_s(d.msgs_in_sequence@));
        }
    }
}

/// A serialized journal page is well-formed.
proof fn lemma_journal_wf(j: JournalPage)
    ensures
        wf(journal_s(j)),
{
    reveal_strlit("title");
    reveal_strlit("msgs_in_sequence");
    lemma_wf_ids(j.msgs_in_sequence@);
    let fs = journal_s(j)->Obj_0;
    assert(fs[0].key == "title"@);
    assert(fs[1].key == "msgs_in_sequence"@);
    assert(fs[0].key != fs[1].key);
    assert(forall|i: int, j: int| 0 <= i < j < fs.len() ==> fs[i].key != fs[j].key);
    assert forall|i: int| 0 <= i < fs.len() implies wf(#[trigger] fs[i].val) by {
        if !(fs[i].val is Arr) && !(fs[i].val is Obj) {
            lemma_wf_leaf(fs[i].val);
        } else {
            assert(fs[i].val == ids_s(j.msgs_in_sequence@));
        }
    }
}

/// A serialized archived work is well-formed.
proof fn lemma_doi_wf(d: DoiEntry)
    ensures
        wf(doi_s(d)),
{
    reveal_strlit("doi");
    reveal_strlit("data");
    let fs = doi_s(d)->Obj_0;
    assert(fs[0].key == "doi"@);
    assert(fs[1].key == "data"@);
    assert(fs[0].key != fs[1].key);
    assert(forall|i: int, j: int| 0 <= i < j < fs.len() ==> fs[i].key != fs[j].key);
    assert forall|i: int| 0 <= i < fs.len() implies wf(#[trigger] fs[i].val) by {
        lemma_wf_leaf(fs[i].val);
    }
}

/// A serialized token entry is well-formed.
proof fn lemma_export_wf(e: ExportEntry)
    ensures
        wf(export_s(e)),
{
    reveal_strlit("id");
    reveal_strlit("token");
    let fs = export_s(e)->Obj_0;
    assert(wf(token_s(e.token))) by {
        let xs = token_s(e.token)->Arr_0;
        assert forall|i: int| 0 <= i < xs.len() implies wf(#[trigger] xs[i]) by {
            lemma_wf_leaf(xs[i]);
        }
    }
    assert(fs[0].key == "id"@);
    assert(fs[1].key == "token"@);
    assert(fs[0].key != fs[1].key);
    assert(forall|i: int, j: int| 0 <= i < j < fs.len() ==> fs[i].key != fs[j].key);
    assert forall|i: int| 0 <= i < fs.len() implies wf(#[trigger] fs[i].val) by {
        if !(fs[i].val is Arr) && !(fs[i].val is Obj) {
            lemma_wf_leaf(fs[i].val);
        } else {
            assert(fs[i].val == token_s(e.token));
        }
    }
}

/// The canonical form of any aggregate is well-formed: every object in
/// it has pairwise distinct keys, so the diff/patch round-trip law
/// (`lemma_diff_round_trip`) applies to it.
pub proof fn lemma_canon_wf(s: S_lf)
    ensures
        wf(canon_s(s)),
{
    reveal_strlit("nonce");
    reveal_strlit("state_cookie");
    reveal_strlit("export_map");
    reveal_strlit("username");
    reveal_strlit("pronouns");
    reveal_strlit("me");
    reveal_strlit("msgs");
    reveal_strlit("dm_storage");
    reveal_strlit("journal_storage");
    reveal_strlit("doi_storage");
    let fs = canon_s(s)->Obj_0;
    assert(fs[0].key == "nonce"@);
    assert(fs[1].key == "state_cookie"@);
    assert(fs[2].key == "export_map"@);
    assert(fs[3].key == "username"@);
    assert(fs[4].key == "pronouns"@);
    assert(fs[5].key == "me"@);
    assert(fs[6].key == "msgs"@);
    assert(fs[7].key == "dm_storage"@);
    assert(fs[8].key == "journal_storage"@);
    assert(fs[9].key == "doi_storage"@);
    assert(fs[0].key != fs[1].key);
    assert(fs[0].key != fs[2].key);
    assert(fs[0].key != fs[3].key);
    assert(fs[0].key != fs[4].key);
    assert(fs[0].key != fs[5].key);
    assert(fs[0].key != fs[6].key);
    assert(fs[0].key != fs[7].key);
    assert(fs[0].key != fs[8].key);
    assert(fs[0].key != fs[9].key);
    assert(fs[1].key != fs[2].key);
    assert(fs[1].key != fs[3].key);
    assert(fs[1].key != fs[4].key);
    assert(fs[1].key != fs[5].key);
    assert(fs[1].key != fs[6].key);
    assert(fs[1].key != fs[7].key);
    assert(fs[1].key != fs[8].key);
    assert(fs[1].key != fs[9].key);
    assert(fs[2].key != fs[3].key);
    assert(fs[2].key != fs[4].key);
    assert(fs[2].key != fs[5].key);
    assert(fs[2].key != fs[6].key);
    assert(fs[2].key[0] == 'e' && fs[7].key[0] == 'd');
    assert(fs[2].key != fs[7].key);
    assert(fs[2].key != fs[8].key);
    assert(fs[2].key != fs[9].key);
    assert(fs[3].key[0] == 'u' && fs[4].key[0] == 'p');
    assert(fs[3].key != fs[4].key);
    assert(fs[3].key != fs[5].key);
    assert(fs[3].key != fs[6].key);
    assert(fs[3].key != fs[7].key);
    assert(fs[3].key != fs[8].key);
    assert(fs[3].key != fs[9].key);
    assert(fs[4].key != fs[5].key);
    assert(fs[4].key != fs[6].key);
    assert(fs[4].key != fs[7].key);
    assert(fs[4].key != fs[8].key);
    assert(fs[4].key != fs[9].key);
    assert(fs[5].key != fs[6].key);
    assert(fs[5].key != fs[7].key);
    assert(fs[5].key != fs[8].key);
    assert(fs[5].key != fs[9].key);
    assert(fs[6].key != fs[7].key);
    assert(fs[6].key != fs[8].key);
    assert(fs[6].key != fs[9].key);
    assert(fs[7].key != fs[8].key);
    assert(fs[7].key != fs[9].key);
    assert(fs[8].key != fs[9].key);
    assert(forall|i: int, j: int| 0 <= i < j < fs.len() ==> fs[i].key != fs[j].key);
    assert(wf(fs[2].val)) by {
        let xs = fs[2].val->Arr_0;
        assert forall|j: int| 0 <= j < xs.len() implies wf(#[trigger] xs[j]) by {
            assert(xs[j] == export_s(s.export_map@[j]));
            lemma_export_wf(s.export_map@[j]);
        }
    }
    assert(wf(fs[4].val)) by {
        let xs = fs[4].val->Arr_0;
        assert forall|j: int| 0 <= j < xs.len() implies wf(#[trigger] xs[j]) by {
            lemma_wf_leaf(xs[j]);
        }
    }
    assert(wf(fs[5].val)) by {
        lemma_person_wf(s.me);
    }
    assert(wf(fs[6].val)) by {
        let xs = fs[6].val->Arr_0;
        assert forall|j: int| 0 <= j < xs.len() implies wf(#[trigger] xs[j]) by {
            assert(xs[j] == msg_s(s.msgs@[j]));
            lemma_msg_wf(s.msgs@[j]);
        }
    }
    assert(wf(fs[7].val)) by {
        let xs = fs[7].val->Arr_0;
        assert forall|j: int| 0 <= j < xs.len() implies wf(#[trigger] xs[j]) by {
            assert(xs[j] == dm_s(s.dm_storage@[j]));
            lemma_dm_wf(s.dm_storage@[j]);
        }
    }
    assert(wf(fs[8].val)) by {
        let xs = fs[8].val->Arr_0;
        assert forall|j: int| 0 <= j < xs.len() implies wf(#[trigger] xs[j]) by {
            assert(xs[j] == journal_s(s.journal_storage@[j]));
            lemma_journal_wf(s.journal_storage@[j]);
        }
    }
    assert(wf(fs[9].val)) by {
        let xs = fs[9].val->Arr_0;
        assert forall|j: int| 0 <= j < xs.len() implies wf(#[trigger] xs[j]) by {
            assert(xs[j] == doi_s(s.doi_storage@[j]));
            lemma_doi_wf(s.doi_storage@[j]);
        }
    }
    assert forall|i: int| 0 <= i < fs.len() implies wf(#[trigger] fs[i].val) by {
        if i == 0 || i == 1 || i == 3 {
            lemma_wf_leaf(fs[i].val);
        }
    }
}

/// The reconciliation laws at the aggregate level: the patch computed
/// between two aggregates' canonical forms, applied to the first,
/// reproduces the second exactly; and the difference of an aggregate
/// from itself is the empty patch.
pub proof fn lemma_aggregate_round_trip(a: S_lf, b: S_lf)
    ensures
        apply_patch_s(canon_s(a), diff_s(canon_s(a), canon_s(b))) == Some(canon_s(b)),
        diff_s(canon_s(a), canon_s(a)) == Seq::<OpS>::empty(),
{
    lemma_canon_wf(a);
    lemma_diff_round_trip(canon_s(a), canon_s(b));
    lemma_diff_self_empty(canon_s(a));
}

/// Renaming one thread is one operation: when two aggregates differ in
/// exactly the name of the thread at `d`, their canonical difference is
/// a single `Replace` at that thread's name path carrying the new name —
/// no other operation.
pub proof fn lemma_rename_dm_single_replace(s1: S_lf, s2: S_lf, d: int)
    requires
        s2 == (S_lf { dm_storage: s2.dm_storage, ..s1 }),
        s2.dm_storage@.len() == s1.dm_storage@.len(),
        0 <= d < s1.dm_storage@.len(),
        s2.dm_storage@[d] == (DM { name: s2.dm_storage@[d].name, ..s1.dm_storage@[d] }),
        s2.dm_storage@[d].name@ != s1.dm_storage@[d].name@,
        forall|k: int|
            0 <= k < s1.dm_storage@.len() && k != d ==> s2.dm_storage@[k] == s1.dm_storage@[k],
    ensures
        diff_s(canon_s(s1), canon_s(s2)) =~= seq![
            OpS {
                kind: OpKind::Replace,
                path: seq![
                    SegS::Key("dm_storage"@),
                    SegS::Idx(d),
                    SegS::Key("name"@),
                ],
                value: ValueS::Str(s2.dm_storage@[d].name@),
            },
        ],
{
    let f1 = canon_s(s1)->Obj_0;
    let f2 = canon_s(s2)->Obj_0;
    let n1 = s1.dm_storage@[d].name@;
    let n2 = s2.dm_storage@[d].name@;

    // The two canonical objects carry the same keys, and agree on every
    // field but the thread store.
    assert(same_keys(f1, f2));
    assert(f1[2].val->Arr_0 =~= f2[2].val->Arr_0);
    assert(f1[6].val->Arr_0 =~= f2[6].val->Arr_0);
    assert(f1[8].val->Arr_0 =~= f2[8].val->Arr_0);
    assert(f1[9].val->Arr_0 =~= f2[9].val->Arr_0);
    assert(forall|k: int| 0 <= k < f1.len() && k != 7 ==> f1[k] == f2[k]);

    // The two thread lists agree everywhere but at `d`, where only the
    // name field differs.
    let arr1 = f1[7].val->Arr_0;
    let arr2 = f2[7].val->Arr_0;
    let dm1 = s1.dm_storage@[d];
    let dm2 = s2.dm_storage@[d];
    assert(arr1.len() == arr2.len());
    assert(forall|k: int| 0 <= k < arr1.len() && k != d ==> arr1[k] == arr2[k]);
    assert(arr1[d] == dm_s(dm1) && arr2[d] == dm_s(dm2));
    let g1 = dm_s(dm1)->Obj_0;
    let g2 = dm_s(dm2)->Obj_0;
    assert(same_keys(g1, g2));
    assert(g1[3].val == ids_s(dm1.msgs_in_sequence@) && g2[3].val == ids_s(
        dm2.msgs_in_sequence@,
    ));
    assert(forall|k: int| 0 <= k < g1.len() && k != 0 ==> g1[k] == g2[k]);
    assert(g1[0].val == ValueS::Str(n1) && g2[0].val == ValueS::Str(n2));
    assert(g1[0] != g2[0]);
    assert(dm_s(dm1) != dm_s(dm2));
    assert(arr1[d] != arr2[d]);
    assert(f1[7] != f2[7]);
    assert(canon_s(s1) != canon_s(s2));

    // Innermost difference: the two names, one whole-value replacement.
    let d_name = diff_s(ValueS::Str(n1), ValueS::Str(n2));
    assert(d_name =~= seq![
        OpS { kind: OpKind::Replace, path: Seq::empty(), value: ValueS::Str(n2) },
    ]);

    // Lift it below the name key, the thread's index, the store's key.
    lemma_diff_obj_single(g1, g2, 0, 0);
    assert(diff_s(dm_s(dm1), dm_s(dm2)) == prefix_ops(SegS::Key("name"@), d_name));
    let d_dm = prefix_ops(SegS::Key("name"@), d_name);
    assert(d_dm =~= seq![
        OpS {
            kind: OpKind::Replace,
            path: seq![SegS::Key("name"@)],
            value: ValueS::Str(n2),
        },
    ]) by {
        assert(seq![SegS::Key("name"@)] + Seq::<SegS>::empty() =~= seq![SegS::Key("name"@)]);
    }
    lemma_diff_arr_single(arr1, arr2, d, 0);
    assert(diff_s(ValueS::Arr(arr1), ValueS::Arr(arr2)) == diff_arr(arr1, arr2, 0));
    let d_arr = prefix_ops(SegS::Idx(d), d_dm);
    assert(d_arr =~= seq![
        OpS {
            kind: OpKind::Replace,
            path: seq![SegS::Idx(d), SegS::Key("name"@)],
            value: ValueS::Str(n2),
        },
    ]) by {
        assert(seq![SegS::Idx(d)] + seq![SegS::Key("name"@)] =~= seq![
            SegS::Idx(d),
            SegS::Key("name"@),
        ]);
    }
    lemma_diff_obj_single(f1, f2, 7, 0);
    assert(diff_s(canon_s(s1), canon_s(s2)) == prefix_ops(SegS::Key("dm_storage"@), d_arr));
    assert(prefix_ops(SegS::Key("dm_storage"@), d_arr) =~= seq![
        OpS {
            kind: OpKind::Replace,
            path: seq![
                SegS::Key("dm_storage"@),
                SegS::Idx(d),
                SegS::Key("name"@),
            ],
            value: ValueS::Str(n2),
        },
    ]) by {
        assert(seq![SegS::Key("dm_storage"@)] + seq![SegS::Idx(d), SegS::Key("name"@)] =~= seq![
            SegS::Key("dm_storage"@),
            SegS::Idx(d),
            SegS::Key("name"@),
        ]);
    }
}

/// An optional text, serialized.
fn canon_opt_str(o: &Option<String>) -> (r: Value)
    ensures
        r@ == opt_str_s(*o),
{
    match o {
        Some(t) => Value::Str(t.clone()),
        None => Value::Null,
    }
}

/// A byte string, serialized (copied).
fn canon_bytes(b: &Vec<u8>) -> (r: Value)
    ensures
        r@ == ValueS::Bytes(b@),
{
    Value::Bytes(copy_bytes(b))
}

/// A plain copy of a byte vector.
fn copy_bytes(b: &Vec<u8>) -> (r: Vec<u8>)
    ensures
        r@ == b@,
{
    let n = b.len();
    let mut out: Vec<u8> = Vec::new();
    let mut i: usize = 0;
    while i < n
        invariant
            n == b@.len(),
            i <= n,
            out@ == b@.subrange(0, i as int),
        decreases n - i,
    {
        out.push(b[i]);
        proof {
            assert(out@ =~= b@.subrange(0, i + 1 as int));
        }
        i += 1;
    }
    proof {
        assert(out@ =~= b@);
    }
    out
}

/// A token, serialized as its two halves.
fn canon_token(t: u128) -> (r: Value)
    ensures
        r@ == token_s(t),
{
    let hi = (t >> 64) as u64;
    let lo = t as u64;
    let mut xs: Vec<Value> = Vec::new();
    xs.push(Value::Int(hi));
    xs.push(Value::Int(lo));
    proof {
        assert(arr_model(xs) =~= token_s(t)->Arr_0);
    }
    Value::Arr(xs)
}

/// A list of ids, serialized.
fn canon_ids(v: &Vec<u64>) -> (r: Value)
    ensures
        r@ == ids_s(v@),
{
    let n = v.len();
    let mut xs: Vec<Value> = Vec::new();
    let mut i: usize = 0;
    while i < n
        invariant
            n == v@.len(),
            i <= n,
            xs@.len() == i,
            forall|j: int| 0 <= j < i ==> arr_model(xs)[j] == ValueS::Int(#[trigger] v@[j]),
        decreases n - i,
    {
        let ghost pre = xs@;
        xs.push(Value::Int(v[i]));
        proof {
            assert(arr_model(xs)[i as int] == ValueS::Int(v@[i as int]));
            assert forall|j: int| 0 <= j < i implies arr_model(xs)[j] == ValueS::Int(
                #[trigger] v@[j],
            ) by {
                assert(xs@[j] == pre[j]);
            }
        }
        i += 1;
    }
    proof {
        assert(arr_model(xs) =~= ids_s(v@)->Arr_0);
    }
    Value::Arr(xs)
}

/// A policy, serialized as its authorities' names.
fn canon_policy(p: &ContentPolicy) -> (r: Value)
    ensures
        r@ == policy_s(*p),
{
    let n = p.authorities.len();
    let mut xs: Vec<Value> = Vec::new();
    let mut i: usize = 0;
    while i < n
        invariant
            n == p.authorities@.len(),
            i <= n,
            xs@.len() == i,
            forall|j: int| 0 <= j < i ==> arr_model(xs)[j] == ValueS::Str(
                authority_name(#[trigger] p.authorities@[j]),
            ),
        decreases n - i,
    {
        let label = match p.authorities[i] {
            Authority::MediaDevices => "media_devices".to_owned(),
            Authority::Network => "network".to_owned(),
            Authority::Storage => "storage".to_owned(),
            Authority::S_lfApi => "s_lf_api".to_owned(),
        };
        let ghost pre = xs@;
        xs.push(Value::Str(label));
        proof {
            assert(arr_model(xs)[i as int] == ValueS::Str(
                authority_name(p.authorities@[i as int]),
            ));
            assert forall|j: int| 0 <= j < i implies arr_model(xs)[j] == ValueS::Str(
                authority_name(#[trigger] p.authorities@[j]),
            ) by {
                assert(xs@[j] == pre[j]);
            }
        }
        i += 1;
    }
    proof {
        assert(arr_model(xs) =~= policy_s(*p)->Arr_0);
    }
    Value::Arr(xs)
}

/// A person, serialized.
fn canon_person(p: &Person) -> (r: Value)
    ensures
        r@ == person_s(*p),
{
    let mut fs: Vec<Field> = Vec::new();
    fs.push(Field { key: "id".to_owned(), val: Value::Int(p.id) });
    fs.push(Field { key: "card".to_owned(), val: canon_opt_str(&p.card.vcard_text) });
    let profile = match p.profile {
        Some(i) => Value::Int(i),
        None => Value::Null,
    };
    fs.push(Field { key: "profile".to_owned(), val: profile });
    fs.push(
        Field { key: "cached_profile_image".to_owned(), val: canon_bytes(&p.cached_profile_image) },
    );
    proof {
        assert(obj_model(fs) =~= person_s(*p)->Obj_0);
    }
    Value::Obj(fs)
}

/// A message payload, serialized as a tagged pair.
fn canon_content(c: &MsgContent) -> (r: Value)
    ensures
        r@ == content_s(*c),
{
    let mut xs: Vec<Value> = Vec::new();
    match c {
        MsgContent::Embed(t) => {
            xs.push(Value::Str("embed".to_owned()));
            xs.push(Value::Str(t.clone()));
        },
        MsgContent::Ref { caption, id } => {
            xs.push(Value::Str("ref".to_owned()));
            xs.push(canon_opt_str(caption));
            xs.push(Value::Int(*id));
        },
        MsgContent::Txt(t) => {
            xs.push(Value::Str("txt".to_owned()));
            xs.push(Value::Str(t.clone()));
        },
        MsgContent::Data(b) => {
            xs.push(Value::Str("data".to_owned()));
            xs.push(canon_bytes(b));
        },
        MsgContent::Img(b) => {
            xs.push(Value::Str("img".to_owned()));
            xs.push(canon_bytes(b));
        },
        MsgContent::Hyperlink { url, text } => {
            xs.push(Value::Str("hyperlink".to_owned()));
            xs.push(Value::Str(url.clone()));
            xs.push(canon_opt_str(text));
        },
        MsgContent::Composite(ids) => {
            xs.push(Value::Str("composite".to_owned()));
            xs.push(canon_ids(ids));
        },
        MsgContent::Dynamic(dc, policy) => {
            xs.push(Value::Str("dynamic".to_owned()));
            xs.push(canon_bytes(&dc.program_blob));
            xs.push(canon_bytes(&dc.program_state));
            xs.push(canon_policy(policy));
        },
        MsgContent::Html(b) => {
            xs.push(Value::Str("html".to_owned()));
            xs.push(canon_bytes(b));
        },
        MsgContent::File(mime, b) => {
            xs.push(Value::Str("file".to_owned()));
            xs.push(Value::Str(mime.clone()));
            xs.push(canon_bytes(b));
        },
        MsgContent::Person(p) => {
            xs.push(Value::Str("person".to_owned()));
            xs.push(canon_person(p));
        },
        MsgContent::Doi(t) => {
            xs.push(Value::Str("doi".to_owned()));
            xs.push(Value::Str(t.clone()));
        },
        MsgContent::Filesystem(b) => {
            xs.push(Value::Str("filesystem".to_owned()));
            xs.push(canon_bytes(b));
        },
        MsgContent::Date(t, ts) => {
            xs.push(Value::Str("date".to_owned()));
            xs.push(Value::Str(t.clone()));
            xs.push(Value::Time(*ts));
        },
        MsgContent::TemporalObligation => {
            xs.push(Value::Str("temporal_obligation".to_owned()));
            xs.push(Value::Null);
        },
        MsgContent::Dm(id) => {
            xs.push(Value::Str("dm".to_owned()));
            xs.push(Value::Int(*id));
        },
    }
    proof {
        assert(arr_model(xs) =~= content_s(*c)->Arr_0);
    }
    Value::Arr(xs)
}

/// A message, serialized.
fn canon_msg(m: &Msg) -> (r: Value)
    ensures
        r@ == msg_s(*m),
{
    let mut fs: Vec<Field> = Vec::new();
    fs.push(Field { key: "id".to_owned(), val: Value::Int(m.id) });
    fs.push(Field { key: "authored_at".to_owned(), val: Value::Time(m.authored_at) });
    fs.push(Field { key: "content".to_owned(), val: canon_content(&m.content) });
    proof {
        assert(obj_model(fs) =~= msg_s(*m)->Obj_0);
    }
    Value::Obj(fs)
}

/// A thread, serialized.
fn canon_dm(d: &DM) -> (r: Value)
    ensures
        r@ == dm_s(*d),
{
    let mut fs: Vec<Field> = Vec::new();
    fs.push(Field { key: "name".to_owned(), val: Value::Str(d.name.clone()) });
    fs.push(Field { key: "scroll_top".to_owned(), val: Value::Int(d.scroll_state.top) });
    fs.push(Field { key: "scroll_offset".to_owned(), val: Value::Int(d.scroll_state.offset) });
    fs.push(Field { key: "msgs_in_sequence".to_owned(), val: canon_ids(&d.msgs_in_sequence) });
    proof {
        assert(obj_model(fs) =~= dm_s(*d)->Obj_0);
    }
    Value::Obj(fs)
}

/// A journal page, serialized.
fn canon_journal(j: &JournalPage) -> (r: Value)
    ensures
        r@ == journal_s(*j),
{
    let mut fs: Vec<Field> = Vec::new();
    fs.push(Field { key: "title".to_owned(), val: Value::Str(j.title.clone()) });
    fs.push(Field { key: "msgs_in_sequence".to_owned(), val: canon_ids(&j.msgs_in_sequence) });
    proof {
        assert(obj_model(fs) =~= journal_s(*j)->Obj_0);
    }
    Value::Obj(fs)
}

/// An archived work, serialized.
fn canon_doi(d: &DoiEntry) -> (r: Value)
    ensures
        r@ == doi_s(*d),
{
    let mut fs: Vec<Field> = Vec::new();
    fs.push(Field { key: "doi".to_owned(), val: Value::Str(d.doi.clone()) });
    fs.push(Field { key: "data".to_owned(), val: canon_bytes(&d.data) });
    proof {
        assert(obj_model(fs) =~= doi_s(*d)->Obj_0);
    }
    Value::Obj(fs)
}

/// A minted token entry, serialized.
fn canon_export(e: &ExportEntry) -> (r: Value)
    ensures
        r@ == export_s(*e),
{
    let mut fs: Vec<Field> = Vec::new();
    fs.push(Field { key: "id".to_owned(), val: Value::Int(e.id) });
    fs.push(Field { key: "token".to_owned(), val: canon_token(e.token) });
    proof {
        assert(obj_model(fs) =~= export_s(*e)->Obj_0);
    }
    Value::Obj(fs)
}

/// Serializes the aggregate into its canonical structural form, the
/// value the model `canon_s` gives; the result is always well-formed.
pub fn canon(s: &S_lf) -> (r: Value)
    ensures
        r@ == canon_s(*s),
        wf(r@),
{
    let mut fs: Vec<Field> = Vec::new();
    fs.push(Field { key: "nonce".to_owned(), val: Value::Int(s.nonce) });
    fs.push(Field { key: "state_cookie".to_owned(), val: Value::Int(s.state_cookie) });

    let n_exp = s.export_map.len();
    let mut exps: Vec<Value> = Vec::new();
    let mut i: usize = 0;
    while i < n_exp
        invariant
            n_exp == s.export_map@.len(),
            i <= n_exp,
            exps@.len() == i,
            forall|j: int| 0 <= j < i ==> arr_model(exps)[j] == export_s(#[trigger] s.export_map@[j]),
        decreases n_exp - i,
    {
        let e = canon_export(&s.export_map[i]);
        let ghost pre = exps@;
        exps.push(e);
        proof {
            assert(arr_model(exps)[i as int] == export_s(s.export_map@[i as int]));
            assert forall|j: int| 0 <= j < i implies arr_model(exps)[j] == export_s(
                #[trigger] s.export_map@[j],
            ) by {
                assert(exps@[j] == pre[j]);
            }
        }
        i += 1;
    }
    fs.push(Field { key: "export_map".to_owned(), val: Value::Arr(exps) });

    fs.push(Field { key: "username".to_owned(), val: Value::Str(s.username.clone()) });

    let mut pr: Vec<Value> = Vec::new();
    pr.push(Value::Str(s.pronouns.0.clone()));
    pr.push(Value::Str(s.pronouns.1.clone()));
    pr.push(Value::Str(s.pronouns.2.clone()));
    fs.push(Field { key: "pronouns".to_owned(), val: Value::Arr(pr) });

    fs.push(Field { key: "me".to_owned(), val: canon_person(&s.me) });

    let n_msg = s.msgs.len();
    let mut msgs: Vec<Value> = Vec::new();
    let mut i2: usize = 0;
    while i2 < n_msg
        invariant
            n_msg == s.msgs@.len(),
            i2 <= n_msg,
            msgs@.len() == i2,
            forall|j: int| 0 <= j < i2 ==> arr_model(msgs)[j] == msg_s(#[trigger] s.msgs@[j]),
        decreases n_msg - i2,
    {
        let m = canon_msg(&s.msgs[i2]);
        let ghost pre = msgs@;
        msgs.push(m);
        proof {
            assert(arr_model(msgs)[i2 as int] == msg_s(s.msgs@[i2 as int]));
            assert forall|j: int| 0 <= j < i2 implies arr_model(msgs)[j] == msg_s(
                #[trigger] s.msgs@[j],
            ) by {
                assert(msgs@[j] == pre[j]);
            }
        }
        i2 += 1;
    }
    fs.push(Field { key: "msgs".to_owned(), val: Value::Arr(msgs) });

    let n_dm = s.dm_storage.len();
    let mut dms: Vec<Value> = Vec::new();
    let mut i3: usize = 0;
    while i3 < n_dm
        invariant
            n_dm == s.dm_storage@.len(),
            i3 <= n_dm,
            dms@.len() == i3,
            forall|j: int| 0 <= j < i3 ==> arr_model(dms)[j] == dm_s(#[trigger] s.dm_storage@[j]),
        decreases n_dm - i3,
    {
        let d = canon_dm(&s.dm_storage[i3]);
        let ghost pre = dms@;
        dms.push(d);
        proof {
            assert(arr_model(dms)[i3 as int] == dm_s(s.dm_storage@[i3 as int]));
            assert forall|j: int| 0 <= j < i3 implies arr_model(dms)[j] == dm_s(
                #[trigger] s.dm_storage@[j],
            ) by {
                assert(dms@[j] == pre[j]);
            }
        }
        i3 += 1;
    }
    fs.push(Field { key: "dm_storage".to_owned(), val: Value::Arr(dms) });

    let n_j = s.journal_storage.len();
    let mut js: Vec<Value> = Vec::new();
    let mut i4: usize = 0;
    while i4 < n_j
        invariant
            n_j == s.journal_storage@.len(),
            i4 <= n_j,
            js@.len() == i4,
            forall|j: int| 0 <= j < i4 ==> arr_model(js)[j] == journal_s(#[trigger] s.journal_storage@[j]),
        decreases n_j - i4,
    {
        let jp = canon_journal(&s.journal_storage[i4]);
        let ghost pre = js@;
        js.push(jp);
        proof {
            assert(arr_model(js)[i4 as int] == journal_s(s.journal_storage@[i4 as int]));
            assert forall|j: int| 0 <= j < i4 implies arr_model(js)[j] == journal_s(
                #[trigger] s.journal_storage@[j],
            ) by {
                assert(js@[j] == pre[j]);
            }
        }
        i4 += 1;
    }
    fs.push(Field { key: "journal_storage".to_owned(), val: Value::Arr(js) });

    let n_d = s.doi_storage.len();
    let mut ds: Vec<Value> = Vec::new();
    let mut i5: usize = 0;
    while i5 < n_d
        invariant
            n_d == s.doi_storage@.len(),
            i5 <= n_d,
            ds@.len() == i5,
            forall|j: int| 0 <= j < i5 ==> arr_model(ds)[j] == doi_s(#[trigger] s.doi_storage@[j]),
        decreases n_d - i5,
    {
        let de = canon_doi(&s.doi_storage[i5]);
        let ghost pre = ds@;
        ds.push(de);
        proof {
            assert(arr_model(ds)[i5 as int] == doi_s(s.doi_storage@[i5 as int]));
            assert forall|j: int| 0 <= j < i5 implies arr_model(ds)[j] == doi_s(
                #[trigger] s.doi_storage@[j],
            ) by {
                assert(ds@[j] == pre[j]);
            }
        }
        i5 += 1;
    }
    fs.push(Field { key: "doi_storage".to_owned(), val: Value::Arr(ds) });

    proof {
        assert(arr_model(exps) =~= canon_s(*s)->Obj_0[2].val->Arr_0);
        assert(arr_model(msgs) =~= canon_s(*s)->Obj_0[6].val->Arr_0);
        assert(arr_model(dms) =~= canon_s(*s)->Obj_0[7].val->Arr_0);
        assert(arr_model(js) =~= canon_s(*s)->Obj_0[8].val->Arr_0);
        assert(arr_model(ds) =~= canon_s(*s)->Obj_0[9].val->Arr_0);
        assert(arr_model(pr) =~= canon_s(*s)->Obj_0[4].val->Arr_0);
        assert(obj_model(fs) =~= canon_s(*s)->Obj_0);
        lemma_canon_wf(*s);
    }
    Value::Obj(fs)
}

} // verus!
