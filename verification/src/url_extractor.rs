use vstd::prelude::*;
use crate::error::AppError;
use crate::record::{Record, RecordMetadata, Uris};
use crate::store::MemObjectStore;
use crate::url_fsm::{spec_fsm, strict_sorted};
use crate::web::url_norm;

verus! {

/// Whether a discovered-URI list is exactly what the extractor machine
/// yields from these bytes and this origin: sorted, duplicate-free, and
/// holding precisely the emitted URIs.
pub open spec fn uris_ok(u: Uris, bytes: Seq<u8>, origin: Seq<char>) -> bool {
    &&& spec_fsm(bytes, 0, origin) matches Ok(emits) && strict_sorted(u.uris.deep_view()) && (
    forall|x: Seq<char>| u.uris.deep_view().contains(x) <==> emits.contains(x))
}

/// The first failure an extraction pass over the annotations would hit:
/// a stored body missing from the store, or the machine failing on its
/// bytes.
pub open spec fn first_extract_error(
    store: Map<Seq<char>, Seq<u8>>,
    metas: Seq<RecordMetadata>,
    origin: Seq<char>,
) -> Option<AppError>
    decreases metas.len(),
{
    if metas.len() == 0 {
        None
    } else {
        let rest = first_extract_error(store, metas.drop_first(), origin);
        match metas[0] {
            RecordMetadata::HttpResponse(h) => match h.key {
                Some(k) => if !store.contains_key(k@) {
                    Some(AppError::NotFound)
                } else {
                    match spec_fsm(store[k@], 0, origin) {
                        Ok(_) => rest,
                        Err(e) => Some(e),
                    }
                },
                None => rest,
            },
            _ => rest,
        }
    }
}

/// How the annotations grow under extraction: each stored response is
/// preceded by the list of URIs its body yields; everything else passes
/// through unchanged, in order.
pub open spec fn expanded_rel(
    store: Map<Seq<char>, Seq<u8>>,
    origin: Seq<char>,
    ins: Seq<RecordMetadata>,
    outs: Seq<RecordMetadata>,
) -> bool
    decreases ins.len(),
{
    if ins.len() == 0 {
        outs.len() == 0
    } else {
        match ins[0] {
            RecordMetadata::HttpResponse(h) => match h.key {
                Some(k) => {
                    &&& outs.len() >= 2
                    &&& outs[0] matches RecordMetadata::Uris(u) && store.contains_key(k@)
                        && uris_ok(u, store[k@], origin)
                    &&& outs[1] == ins[0]
                    &&& expanded_rel(store, origin, ins.drop_first(), outs.skip(2))
                },
                None => {
                    &&& outs.len() >= 1
                    &&& outs[0] == ins[0]
                    &&& expanded_rel(store, origin, ins.drop_first(), outs.skip(1))
                },
            },
            _ => {
                &&& outs.len() >= 1
                &&& outs[0] == ins[0]
                &&& expanded_rel(store, origin, ins.drop_first(), outs.skip(1))
            },
        }
    }
}

/// The stored-body key an annotation carries, if any.
pub open spec fn response_key(m: RecordMetadata) -> Option<Seq<char>> {
    match m {
        RecordMetadata::HttpResponse(h) => match h.key {
            Some(k) => Some(k@),
            None => None,
        },
        _ => None,
    }
}

/// The extraction law: for every annotation of the input that carries a
/// stored body, the extracted record contains a discovered-URI entry holding
/// exactly the sorted, duplicate-free yield of the machine over that body
/// and the record's origin.
pub proof fn lemma_extraction_yields_uris(
    store: Map<Seq<char>, Seq<u8>>,
    origin: Seq<char>,
    ins: Seq<RecordMetadata>,
    outs: Seq<RecordMetadata>,
    i: int,
)
    requires
        expanded_rel(store, origin, ins, outs),
        0 <= i < ins.len(),
        response_key(ins[i]) is Some,
    ensures
        exists|j: int|
            0 <= j < outs.len() && ((#[trigger] outs[j]) matches RecordMetadata::Uris(u)
                && store.contains_key(response_key(ins[i]).unwrap()) && uris_ok(
                u,
                store[response_key(ins[i]).unwrap()],
                origin,
            )),
    decreases i,
{
    if i == 0 {
        match ins[0] {
            RecordMetadata::HttpResponse(h) => {
                assert(outs[0] matches RecordMetadata::Uris(u) && uris_ok(
                    u,
                    store[response_key(ins[0]).unwrap()],
                    origin,
                ));
            },
            _ => {
                assert(false);
            },
        }
    } else {
        let step: int = match ins[0] {
            RecordMetadata::HttpResponse(h) => if h.key is Some {
                2
            } else {
                1
            },
            _ => 1,
        };
        assert(ins.drop_first()[i - 1] == ins[i]);
        lemma_extraction_yields_uris(store, origin, ins.drop_first(), outs.skip(step), i - 1);
        let j = choose|j: int|
            0 <= j < outs.skip(step).len() && ((#[trigger] outs.skip(step)[j])
                matches RecordMetadata::Uris(u) && store.contains_key(
                response_key(ins.drop_first()[i - 1]).unwrap(),
            ) && uris_ok(u, store[response_key(ins.drop_first()[i - 1]).unwrap()], origin));
        assert(outs[j + step] == outs.skip(step)[j]);
    }
}

/// A step of the relation can be appended at the back.
proof fn lemma_expanded_rel_snoc(
    store: Map<Seq<char>, Seq<u8>>,
    origin: Seq<char>,
    ins: Seq<RecordMetadata>,
    outs: Seq<RecordMetadata>,
    m: RecordMetadata,
    add: Seq<RecordMetadata>,
)
    requires
        expanded_rel(store, origin, ins, outs),
        match m {
            RecordMetadata::HttpResponse(h) => match h.key {
                Some(k) => add.len() == 2 && (add[0] matches RecordMetadata::Uris(u)
                    && store.contains_key(k@) && uris_ok(u, store[k@], origin)) && add[1] == m,
                None => add.len() == 1 && add[0] == m,
            },
            _ => add.len() == 1 && add[0] == m,
        },
    ensures
        expanded_rel(store, origin, ins.push(m), outs + add),
    decreases ins.len(),
{
    if ins.len() == 0 {
        assert(outs.len() == 0);
        assert(outs + add =~= add);
        assert(ins.push(m)[0] == m);
        assert(ins.push(m).drop_first() =~= Seq::<RecordMetadata>::empty());
        assert(expanded_rel(
            store,
            origin,
            Seq::<RecordMetadata>::empty(),
            Seq::<RecordMetadata>::empty(),
        ));
        match m {
            RecordMetadata::HttpResponse(h) => {
                match h.key {
                    Some(_) => {
                        assert(add.skip(2) =~= Seq::<RecordMetadata>::empty());
                    },
                    None => {
                        assert(add.skip(1) =~= Seq::<RecordMetadata>::empty());
                    },
                }
            },
            _ => {
                assert(add.skip(1) =~= Seq::<RecordMetadata>::empty());
            },
        }
    } else {
        assert(ins.push(m)[0] == ins[0]);
        assert(ins.push(m).drop_first() =~= ins.drop_first().push(m));
        match ins[0] {
            RecordMetadata::HttpResponse(h) => {
                match h.key {
                    Some(_) => {
                        lemma_expanded_rel_snoc(
                            store,
                            origin,
                            ins.drop_first(),
                            outs.skip(2),
                            m,
                            add,
                        );
                        assert((outs + add).skip(2) =~= outs.skip(2) + add);
                        assert((outs + add)[0] == outs[0]);
                        assert((outs + add)[1] == outs[1]);
                    },
                    None => {
                        lemma_expanded_rel_snoc(
                            store,
                            origin,
                            ins.drop_first(),
                            outs.skip(1),
                            m,
                            add,
                        );
                        assert((outs + add).skip(1) =~= outs.skip(1) + add);
                        assert((outs + add)[0] == outs[0]);
                    },
                }
            },
            _ => {
                lemma_expanded_rel_snoc(store, origin, ins.drop_first(), outs.skip(1), m, add);
                assert((outs + add).skip(1) =~= outs.skip(1) + add);
                assert((outs + add)[0] == outs[0]);
            },
        }
    }
}

/// The error scan can likewise be read back to front.
proof fn lemma_first_error_snoc(
    store: Map<Seq<char>, Seq<u8>>,
    origin: Seq<char>,
    metas: Seq<RecordMetadata>,
    m: RecordMetadata,
)
    requires
        first_extract_error(store, metas, origin) is None,
    ensures
        first_extract_error(store, metas.push(m), origin) == first_extract_error(
            store,
            seq![m],
            origin,
        ),
    decreases metas.len(),
{
    if metas.len() == 0 {
        assert(metas.push(m) =~= seq![m]);
    } else {
        assert(metas.push(m)[0] == metas[0]);
        assert(metas.push(m).drop_first() =~= metas.drop_first().push(m));
        lemma_first_error_snoc(store, origin, metas.drop_first(), m);
    }
}

/// Reads each stored response body and annotates the record with the URIs
/// the extractor machine discovers in it.
pub struct UrlExtractor {
    pub object_store: MemObjectStore,
}

impl UrlExtractor {
    pub fn new(object_store: MemObjectStore) -> (r: UrlExtractor)
        ensures
            r.object_store == object_store,
    {
        UrlExtractor { object_store }
    }

    /// For every `HttpResponse` annotation carrying an object key, reads the
    /// stored body, runs the extractor with the record's URI as origin, and
    /// inserts the sorted, duplicate-free URI list in front of that
    /// annotation; all other annotations pass through untouched. Fails
    /// exactly where the record URI does not parse, a key is missing from
    /// the store, or a body defeats the machine.
    pub fn on_message(&self, message: Record) -> (r: Result<Record, AppError>)
        requires
            self.object_store.wf(),
        ensures
            match r {
                Ok(rec) => {
                    &&& url_norm(message.uri@) is Some
                    &&& rec.uri == message.uri
                    &&& rec.task_id == message.task_id
                    &&& first_extract_error(
                        self.object_store.view(),
                        message.metadata@,
                        url_norm(message.uri@).unwrap(),
                    ) is None
                    &&& expanded_rel(
                        self.object_store.view(),
                        url_norm(message.uri@).unwrap(),
                        message.metadata@,
                        rec.metadata@,
                    )
                },
                Err(e) => url_norm(message.uri@) is None && e == AppError::UrlParseError
                    || url_norm(message.uri@) is Some && first_extract_error(
                    self.object_store.view(),
                    message.metadata@,
                    url_norm(message.uri@).unwrap(),
                ) == Some(e),
            },
    {
        let origin = match crate::web::url_parse_norm(message.uri.as_str()) {
            Some(o) => o,
            None => {
                return Err(AppError::UrlParseError);
            },
        };
        let ghost g_store = self.object_store.view();
        let ghost g_origin = origin@;
        let ghost ins = message.metadata@;
        let mut out: Vec<RecordMetadata> = Vec::new();
        let ghost mut i: int = 0;
        let mut rest = message.metadata;
        proof {
            assert(ins.take(0) =~= Seq::<RecordMetadata>::empty());
            assert(first_extract_error(g_store, ins.take(0), g_origin) is None);
            assert(rest@ =~= ins.skip(0));
        }
        #[verifier::loop_isolation(false)]
        while rest.len() > 0
            invariant
                0 <= i <= ins.len(),
                rest@ == ins.skip(i),
                expanded_rel(g_store, g_origin, ins.take(i), out@),
                first_extract_error(g_store, ins.take(i), g_origin) is None,
            decreases rest@.len(),
        {
            let ghost ins_pre = ins.take(i);
            let ghost out_pre = out@;
            let meta = rest.remove(0);
            let ghost m = ins[i];
            proof {
                assert(meta == ins.skip(i)[0]);
                assert(ins.skip(i)[0] == ins[i]);
                assert(ins.skip(i).drop_first() =~= ins.skip(i + 1));
                assert(ins.take(i + 1) =~= ins_pre.push(m));
            }
            match meta {
                RecordMetadata::HttpResponse(h) => {
                    if h.key.is_some() {
                        let key_str = match &h.key {
                            Some(k) => k.clone(),
                            None => String::new(),
                        };
                        let body = match self.object_store.get(key_str.as_str()) {
                            Ok(b) => b,
                            Err(e) => {
                                proof {
                                    assert(first_extract_error(g_store, seq![m], g_origin) == Some(
                                        AppError::NotFound,
                                    )) by {
                                        assert(seq![m][0] == m);
                                        assert(seq![m].drop_first()
                                            =~= Seq::<RecordMetadata>::empty());
                                    }
                                    lemma_first_error_prefix(g_store, g_origin, ins, i);
                                }
                                return Err(e);
                            },
                        };
                        let uris = match crate::url_fsm::extract_uris(body, origin.as_str()) {
                            Ok(v) => v,
                            Err(e) => {
                                proof {
                                    assert(first_extract_error(g_store, seq![m], g_origin) == Some(
                                        e,
                                    )) by {
                                        assert(seq![m][0] == m);
                                        assert(seq![m].drop_first()
                                            =~= Seq::<RecordMetadata>::empty());
                                    }
                                    lemma_first_error_prefix(g_store, g_origin, ins, i);
                                }
                                return Err(e);
                            },
                        };
                        out.push(RecordMetadata::Uris(Uris { uris }));
                        out.push(RecordMetadata::HttpResponse(h));
                        proof {
                            let add = seq![out@[out@.len() - 2], out@[out@.len() - 1]];
                            assert(out@ =~= out_pre + add);
                            lemma_expanded_rel_snoc(g_store, g_origin, ins_pre, out_pre, m, add);
                            lemma_first_error_snoc(g_store, g_origin, ins_pre, m);
                            assert(first_extract_error(g_store, seq![m], g_origin) is None) by {
                                assert(seq![m][0] == m);
                                assert(seq![m].drop_first() =~= Seq::<RecordMetadata>::empty());
                            }
                        }
                    } else {
                        out.push(RecordMetadata::HttpResponse(h));
                        proof {
                            let add = seq![out@[out@.len() - 1]];
                            assert(out@ =~= out_pre + add);
                            lemma_expanded_rel_snoc(g_store, g_origin, ins_pre, out_pre, m, add);
                            lemma_first_error_snoc(g_store, g_origin, ins_pre, m);
                            assert(first_extract_error(g_store, seq![m], g_origin) is None) by {
                                assert(seq![m][0] == m);
                                assert(seq![m].drop_first() =~= Seq::<RecordMetadata>::empty());
                            }
                        }
                    }
                },
                other => {
                    out.push(other);
                    proof {
                        let add = seq![out@[out@.len() - 1]];
                        assert(out@ =~= out_pre + add);
                        lemma_expanded_rel_snoc(g_store, g_origin, ins_pre, out_pre, m, add);
                        lemma_first_error_snoc(g_store, g_origin, ins_pre, m);
                        assert(first_extract_error(g_store, seq![m], g_origin) is None) by {
                            assert(seq![m][0] == m);
                            assert(seq![m].drop_first() =~= Seq::<RecordMetadata>::empty());
                        }
                    }
                },
            }
            proof {
                i = i + 1;
            }
        }
        proof {
            assert(ins.take(ins.len() as int) =~= ins);
        }
        Ok(Record { uri: message.uri, task_id: message.task_id, metadata: out })
    }
}

/// A clean prefix pins the full scan's first error to the element after it.
proof fn lemma_first_error_prefix(
    store: Map<Seq<char>, Seq<u8>>,
    origin: Seq<char>,
    metas: Seq<RecordMetadata>,
    i: int,
)
    requires
        0 <= i < metas.len(),
        first_extract_error(store, metas.take(i), origin) is None,
        first_extract_error(store, seq![metas[i]], origin) matches Some(_),
    ensures
        first_extract_error(store, metas, origin) == first_extract_error(
            store,
            seq![metas[i]],
            origin,
        ),
    decreases i,
{
    assert(first_extract_error(store, Seq::<RecordMetadata>::empty(), origin) is None);
    assert(seq![metas[i]][0] == metas[i]);
    assert(seq![metas[i]].drop_first() =~= Seq::<RecordMetadata>::empty());
    if i == 0 {
        match metas[0] {
            RecordMetadata::HttpResponse(h) => {
                match h.key {
                    Some(k) => {
                        if store.contains_key(k@) {
                            match spec_fsm(store[k@], 0, origin) {
                                Ok(_) => {
                                    assert(false);
                                },
                                Err(_) => {},
                            }
                        }
                    },
                    None => {
                        assert(false);
                    },
                }
            },
            _ => {
                assert(false);
            },
        }
    } else {
        let sub = metas.take(i);
        assert(sub[0] == metas[0]);
        assert(sub.drop_first() =~= metas.drop_first().take(i - 1));
        assert(metas.drop_first()[i - 1] == metas[i]);
        // the clean prefix means the head is clean, so both scans step past it
        match metas[0] {
            RecordMetadata::HttpResponse(h) => {
                match h.key {
                    Some(k) => {
                        assert(store.contains_key(k@) && spec_fsm(store[k@], 0, origin) is Ok);
                    },
                    None => {},
                }
            },
            _ => {},
        }
        lemma_first_error_prefix(store, origin, metas.drop_first(), i - 1);
    }
}

} // verus!
