//! The canonical shape of a well-formed NZB document as a token stream,
//! and the proof that the parser turns such a document into exactly one
//! record per file element, in document order, with its groups and
//! segments in document order.

use vstd::prelude::*;

use crate::entities::NzbFileBuilderModel;
use crate::entities::NzbFileModel;
use crate::entities::SegmentBuilderModel;
use crate::entities::SegmentModel;
use crate::errors::ParseError;
use crate::parser::apply_file_attrs;
use crate::parser::apply_segment_attrs;
use crate::parser::attr_bytes;
use crate::parser::attr_number;
use crate::parser::attr_subject;
use crate::parser::extract_quoted_spec;
use crate::parser::init_state;
use crate::parser::parse_tokens_spec;
use crate::parser::parse_uint_spec;
use crate::parser::run_spec;
use crate::parser::step_spec;
use crate::parser::tag_file;
use crate::parser::tag_group;
use crate::parser::tag_segment;
use crate::parser::ParserStateModel;
use crate::xml::TokenModel;
use crate::xml::XmlAttrModel;
use crate::xml::XmlEventModel;

verus! {

/// One segment element as it stands in a document: the raw attribute
/// values and the article id text.
#[verifier::ext_equal]
pub ghost struct SegmentDoc {
    pub bytes_str: Seq<char>,
    pub number_str: Seq<char>,
    pub article_id: Seq<char>,
}

/// One file element as it stands in a document: the subject attribute
/// value, the group names, and the segments.
#[verifier::ext_equal]
pub ghost struct FileDoc {
    pub subject: Seq<char>,
    pub groups: Seq<Seq<char>>,
    pub segments: Seq<SegmentDoc>,
}

/// A start-tag token.
pub open spec fn start_tok(name: Seq<char>, attrs: Seq<XmlAttrModel>) -> TokenModel {
    TokenModel { event: XmlEventModel::Start { name: name, attrs: attrs }, pos: 0 }
}

/// An end-tag token.
pub open spec fn end_tok(name: Seq<char>) -> TokenModel {
    TokenModel { event: XmlEventModel::End { name: name }, pos: 0 }
}

/// A character-data token.
pub open spec fn text_tok(content: Seq<char>) -> TokenModel {
    TokenModel { event: XmlEventModel::Text { content: content }, pos: 0 }
}

/// The name of the wrapper element holding the group elements.
pub open spec fn tag_groups_wrapper() -> Seq<char> {
    seq!['g', 'r', 'o', 'u', 'p', 's']
}

/// The name of the wrapper element holding the segment elements.
pub open spec fn tag_segments_wrapper() -> Seq<char> {
    seq!['s', 'e', 'g', 'm', 'e', 'n', 't', 's']
}

/// The tokens of one group element.
pub open spec fn group_tokens(g: Seq<char>) -> Seq<TokenModel> {
    seq![start_tok(tag_group(), Seq::empty()), text_tok(g), end_tok(tag_group())]
}

/// The tokens of a run of group elements.
pub open spec fn groups_tokens(gs: Seq<Seq<char>>) -> Seq<TokenModel>
    decreases gs.len(),
{
    if gs.len() == 0 {
        Seq::empty()
    } else {
        group_tokens(gs[0]) + groups_tokens(gs.skip(1))
    }
}

/// The tokens of one segment element.
pub open spec fn segment_tokens(s: SegmentDoc) -> Seq<TokenModel> {
    seq![
        start_tok(
            tag_segment(),
            seq![
                XmlAttrModel { key: attr_bytes(), value: s.bytes_str },
                XmlAttrModel { key: attr_number(), value: s.number_str },
            ],
        ),
        text_tok(s.article_id),
        end_tok(tag_segment()),
    ]
}

/// The tokens of a run of segment elements.
pub open spec fn segments_tokens(ss: Seq<SegmentDoc>) -> Seq<TokenModel>
    decreases ss.len(),
{
    if ss.len() == 0 {
        Seq::empty()
    } else {
        segment_tokens(ss[0]) + segments_tokens(ss.skip(1))
    }
}

/// The tokens of one file element: its start tag with the subject
/// attribute, the wrapped group elements, the wrapped segment elements,
/// and its end tag.
pub open spec fn file_tokens(f: FileDoc) -> Seq<TokenModel> {
    seq![
        start_tok(tag_file(), seq![XmlAttrModel { key: attr_subject(), value: f.subject }]),
        start_tok(tag_groups_wrapper(), Seq::empty()),
    ] + groups_tokens(f.groups) + seq![
        end_tok(tag_groups_wrapper()),
        start_tok(tag_segments_wrapper(), Seq::empty()),
    ] + segments_tokens(f.segments) + seq![
        end_tok(tag_segments_wrapper()),
        end_tok(tag_file()),
    ]
}

/// The tokens of a whole document.
pub open spec fn doc_tokens(fs: Seq<FileDoc>) -> Seq<TokenModel>
    decreases fs.len(),
{
    if fs.len() == 0 {
        Seq::empty()
    } else {
        file_tokens(fs[0]) + doc_tokens(fs.skip(1))
    }
}

/// A well-formed segment element: both attribute values parse as
/// unsigned integers of the right width.
pub open spec fn segment_doc_wf(s: SegmentDoc) -> bool {
    &&& parse_uint_spec(s.bytes_str, usize::MAX as int) is Some
    &&& parse_uint_spec(s.number_str, u32::MAX as int) is Some
}

/// A well-formed file element: the subject holds a non-empty quoted
/// filename, at least one group stands inside, and every segment is
/// well-formed.
pub open spec fn file_doc_wf(f: FileDoc) -> bool {
    &&& extract_quoted_spec(f.subject) is Some
    &&& extract_quoted_spec(f.subject).unwrap().len() > 0
    &&& f.groups.len() > 0
    &&& forall|i: int| 0 <= i < f.segments.len() ==> segment_doc_wf(#[trigger] f.segments[i])
}

/// A well-formed document: every file element is well-formed.
pub open spec fn doc_wf(fs: Seq<FileDoc>) -> bool {
    forall|i: int| 0 <= i < fs.len() ==> file_doc_wf(#[trigger] fs[i])
}

/// The record one well-formed segment element describes.
pub open spec fn segment_of(s: SegmentDoc) -> SegmentModel {
    SegmentModel {
        bytes: parse_uint_spec(s.bytes_str, usize::MAX as int).unwrap(),
        number: parse_uint_spec(s.number_str, u32::MAX as int).unwrap(),
        article_id: s.article_id,
    }
}

/// The record one well-formed file element describes.
pub open spec fn file_of(f: FileDoc) -> NzbFileModel {
    NzbFileModel {
        filename: extract_quoted_spec(f.subject).unwrap(),
        groups: f.groups,
        segments: f.segments.map_values(|s: SegmentDoc| segment_of(s)),
    }
}

/// The records a well-formed document describes, in document order.
pub open spec fn files_of(fs: Seq<FileDoc>) -> Seq<NzbFileModel> {
    fs.map_values(|f: FileDoc| file_of(f))
}

/// Running the machine over concatenated streams runs it over each in
/// turn.
proof fn lemma_run_append(st: ParserStateModel, a: Seq<TokenModel>, b: Seq<TokenModel>)
    ensures
        run_spec(st, a + b) == (match run_spec(st, a) {
            Ok(st2) => run_spec(st2, b),
            Err(e) => Err(e),
        }),
    decreases a.len(),
{
    if a.len() == 0 {
        assert(a + b =~= b);
    } else {
        assert((a + b)[0] == a[0]);
        assert((a + b).skip(1) =~= a.skip(1) + b);
        assert((a + b).len() > 0);
        match step_spec(st, a[0]) {
            Ok(st2) => {
                lemma_run_append(st2, a.skip(1), b);
            },
            Err(_) => {},
        }
    }
}

/// One group element appends its name to the open file's groups.
proof fn lemma_run_group(st: ParserStateModel, g: Seq<char>)
    requires
        st.seg_b == SegmentBuilderModel::empty(),
        !st.in_group,
    ensures
        run_spec(st, group_tokens(g)) == Ok::<ParserStateModel, ParseError>(
            ParserStateModel {
                file_b: NzbFileBuilderModel { groups: st.file_b.groups.push(g), ..st.file_b },
                ..st
            },
        ),
{
    let toks = group_tokens(g);
    let st1 = ParserStateModel { in_group: true, ..st };
    let st2 = ParserStateModel {
        file_b: NzbFileBuilderModel { groups: st.file_b.groups.push(g), ..st.file_b },
        ..st1
    };
    let st3 = ParserStateModel { in_group: false, ..st2 };
    assert(step_spec(st, toks[0]) == Ok::<ParserStateModel, ParseError>(st1));
    assert(step_spec(st1, toks[1]) == Ok::<ParserStateModel, ParseError>(st2));
    assert(step_spec(st2, toks[2]) == Ok::<ParserStateModel, ParseError>(st3));
    assert(toks.skip(1)[0] == toks[1]);
    assert(toks.skip(1).skip(1)[0] == toks[2]);
    assert(toks.skip(1).skip(1).skip(1).len() == 0);
    assert(run_spec(st3, toks.skip(1).skip(1).skip(1)) == Ok::<ParserStateModel, ParseError>(st3));
    assert(run_spec(st2, toks.skip(1).skip(1)) == Ok::<ParserStateModel, ParseError>(st3));
    assert(run_spec(st1, toks.skip(1)) == Ok::<ParserStateModel, ParseError>(st3));
    assert(run_spec(st, toks) == Ok::<ParserStateModel, ParseError>(st3));
    assert(st3 =~= (ParserStateModel {
        file_b: NzbFileBuilderModel { groups: st.file_b.groups.push(g), ..st.file_b },
        ..st
    }));
}

/// A run of group elements appends the names in order.
proof fn lemma_run_groups(st: ParserStateModel, gs: Seq<Seq<char>>)
    requires
        st.seg_b == SegmentBuilderModel::empty(),
        !st.in_group,
    ensures
        run_spec(st, groups_tokens(gs)) == Ok::<ParserStateModel, ParseError>(
            ParserStateModel {
                file_b: NzbFileBuilderModel { groups: st.file_b.groups + gs, ..st.file_b },
                ..st
            },
        ),
    decreases gs.len(),
{
    if gs.len() == 0 {
        assert(st.file_b.groups + gs =~= st.file_b.groups);
        assert((ParserStateModel {
            file_b: NzbFileBuilderModel { groups: st.file_b.groups + gs, ..st.file_b },
            ..st
        }) =~= st);
    } else {
        lemma_run_group(st, gs[0]);
        let st2 = ParserStateModel {
            file_b: NzbFileBuilderModel { groups: st.file_b.groups.push(gs[0]), ..st.file_b },
            ..st
        };
        lemma_run_append(st, group_tokens(gs[0]), groups_tokens(gs.skip(1)));
        lemma_run_groups(st2, gs.skip(1));
        assert(st.file_b.groups.push(gs[0]) + gs.skip(1) =~= st.file_b.groups + gs);
    }
}

/// One well-formed segment element appends its record to the open file's
/// segments and leaves the segment builder reset.
proof fn lemma_run_segment(st: ParserStateModel, s: SegmentDoc)
    requires
        st.seg_b == SegmentBuilderModel::empty(),
        segment_doc_wf(s),
    ensures
        run_spec(st, segment_tokens(s)) == Ok::<ParserStateModel, ParseError>(
            ParserStateModel {
                file_b: NzbFileBuilderModel {
                    segments: st.file_b.segments.push(segment_of(s)),
                    ..st.file_b
                },
                ..st
            },
        ),
{
    let toks = segment_tokens(s);
    let attrs = seq![
        XmlAttrModel { key: attr_bytes(), value: s.bytes_str },
        XmlAttrModel { key: attr_number(), value: s.number_str },
    ];
    let sb1 = SegmentBuilderModel {
        bytes: Some(parse_uint_spec(s.bytes_str, usize::MAX as int).unwrap()),
        ..st.seg_b
    };
    let sb2 = SegmentBuilderModel {
        number: Some(parse_uint_spec(s.number_str, u32::MAX as int).unwrap()),
        ..sb1
    };
    let a1 = attrs.skip(1);
    assert(a1.len() == 1 && a1[0] == attrs[1]);
    assert(a1.skip(1).len() == 0);
    assert(attr_bytes().len() == 5 && attr_number().len() == 6);
    assert(apply_segment_attrs(sb2, a1.skip(1)) == sb2);
    assert(apply_segment_attrs(sb1, a1) == sb2);
    assert(apply_segment_attrs(st.seg_b, attrs) == sb2);
    let st1 = ParserStateModel { seg_b: sb2, ..st };
    assert(step_spec(st, toks[0]) == Ok::<ParserStateModel, ParseError>(st1));
    let sb3 = SegmentBuilderModel { article_id: Some(s.article_id), ..sb2 };
    assert(st1.seg_b != SegmentBuilderModel::empty());
    let st2 = ParserStateModel { seg_b: sb3, ..st1 };
    assert(step_spec(st1, toks[1]) == Ok::<ParserStateModel, ParseError>(st2));
    assert(st2.seg_b.can_finalize());
    let st3 = ParserStateModel {
        file_b: NzbFileBuilderModel {
            segments: st2.file_b.segments.push(segment_of(s)),
            ..st2.file_b
        },
        seg_b: SegmentBuilderModel::empty(),
        ..st2
    };
    assert(step_spec(st2, toks[2]) == Ok::<ParserStateModel, ParseError>(st3));
    assert(toks.skip(1)[0] == toks[1]);
    assert(toks.skip(1).skip(1)[0] == toks[2]);
    assert(toks.skip(1).skip(1).skip(1).len() == 0);
    assert(run_spec(st3, toks.skip(1).skip(1).skip(1)) == Ok::<ParserStateModel, ParseError>(st3));
    assert(run_spec(st2, toks.skip(1).skip(1)) == Ok::<ParserStateModel, ParseError>(st3));
    assert(run_spec(st1, toks.skip(1)) == Ok::<ParserStateModel, ParseError>(st3));
    assert(run_spec(st, toks) == Ok::<ParserStateModel, ParseError>(st3));
    assert(st3 =~= (ParserStateModel {
        file_b: NzbFileBuilderModel {
            segments: st.file_b.segments.push(segment_of(s)),
            ..st.file_b
        },
        ..st
    }));
}

/// A run of well-formed segment elements appends their records in order.
proof fn lemma_run_segments(st: ParserStateModel, ss: Seq<SegmentDoc>)
    requires
        st.seg_b == SegmentBuilderModel::empty(),
        forall|i: int| 0 <= i < ss.len() ==> segment_doc_wf(#[trigger] ss[i]),
    ensures
        run_spec(st, segments_tokens(ss)) == Ok::<ParserStateModel, ParseError>(
            ParserStateModel {
                file_b: NzbFileBuilderModel {
                    segments: st.file_b.segments + ss.map_values(
                        |s: SegmentDoc| segment_of(s),
                    ),
                    ..st.file_b
                },
                ..st
            },
        ),
    decreases ss.len(),
{
    if ss.len() == 0 {
        assert(st.file_b.segments + ss.map_values(|s: SegmentDoc| segment_of(s))
            =~= st.file_b.segments);
        assert((ParserStateModel {
            file_b: NzbFileBuilderModel {
                segments: st.file_b.segments + ss.map_values(|s: SegmentDoc| segment_of(s)),
                ..st.file_b
            },
            ..st
        }) =~= st);
    } else {
        lemma_run_segment(st, ss[0]);
        let st2 = ParserStateModel {
            file_b: NzbFileBuilderModel {
                segments: st.file_b.segments.push(segment_of(ss[0])),
                ..st.file_b
            },
            ..st
        };
        lemma_run_append(st, segment_tokens(ss[0]), segments_tokens(ss.skip(1)));
        lemma_run_segments(st2, ss.skip(1));
        assert(st.file_b.segments.push(segment_of(ss[0])) + ss.skip(1).map_values(
            |s: SegmentDoc| segment_of(s),
        ) =~= st.file_b.segments + ss.map_values(|s: SegmentDoc| segment_of(s)));
    }
}

/// One well-formed file element emits exactly its record and leaves the
/// builders reset.
proof fn lemma_run_file(st: ParserStateModel, f: FileDoc)
    requires
        st.file_b == NzbFileBuilderModel::empty(),
        st.seg_b == SegmentBuilderModel::empty(),
        !st.in_group,
        file_doc_wf(f),
    ensures
        run_spec(st, file_tokens(f)) == Ok::<ParserStateModel, ParseError>(
            ParserStateModel { files: st.files.push(file_of(f)), ..st },
        ),
{
    let toks = file_tokens(f);
    let attrs = seq![XmlAttrModel { key: attr_subject(), value: f.subject }];
    let head = seq![
        start_tok(tag_file(), attrs),
        start_tok(tag_groups_wrapper(), Seq::<XmlAttrModel>::empty()),
    ];
    let mid = seq![
        end_tok(tag_groups_wrapper()),
        start_tok(tag_segments_wrapper(), Seq::<XmlAttrModel>::empty()),
    ];
    let tail = seq![end_tok(tag_segments_wrapper()), end_tok(tag_file())];
    assert(toks == head + groups_tokens(f.groups) + mid + segments_tokens(f.segments) + tail);

    // The start tag sets the filename; the wrapper start is ignored.
    let fb1 = NzbFileBuilderModel {
        filename: Some(extract_quoted_spec(f.subject).unwrap()),
        ..st.file_b
    };
    assert(attrs.skip(1).len() == 0);
    assert(apply_file_attrs(fb1, attrs.skip(1), 0) == Ok::<NzbFileBuilderModel, ParseError>(fb1));
    assert(apply_file_attrs(st.file_b, attrs, 0) == Ok::<NzbFileBuilderModel, ParseError>(fb1));
    let st1 = ParserStateModel { file_b: fb1, ..st };
    assert(step_spec(st, head[0]) == Ok::<ParserStateModel, ParseError>(st1));
    assert(tag_groups_wrapper().len() == 6 && tag_file().len() == 4 && tag_segment().len() == 7
        && tag_group().len() == 5 && tag_segments_wrapper().len() == 8);
    assert(tag_groups_wrapper() != tag_file());
    assert(tag_groups_wrapper() != tag_segment());
    assert(tag_groups_wrapper() != tag_group());
    assert(step_spec(st1, head[1]) == Ok::<ParserStateModel, ParseError>(st1));
    assert(head.skip(1)[0] == head[1]);
    assert(head.skip(1).skip(1).len() == 0);
    assert(run_spec(st1, head.skip(1).skip(1)) == Ok::<ParserStateModel, ParseError>(st1));
    assert(run_spec(st1, head.skip(1)) == Ok::<ParserStateModel, ParseError>(st1));
    assert(run_spec(st, head) == Ok::<ParserStateModel, ParseError>(st1));

    // The group elements fill the groups in order.
    lemma_run_groups(st1, f.groups);
    let st2 = ParserStateModel {
        file_b: NzbFileBuilderModel { groups: fb1.groups + f.groups, ..fb1 },
        ..st1
    };

    // The wrapper tags between groups and segments are ignored.
    assert(tag_segments_wrapper() != tag_file());
    assert(tag_segments_wrapper() != tag_segment());
    assert(tag_segments_wrapper() != tag_group());
    assert(step_spec(st2, mid[0]) == Ok::<ParserStateModel, ParseError>(st2));
    assert(step_spec(st2, mid[1]) == Ok::<ParserStateModel, ParseError>(st2));
    assert(mid.skip(1)[0] == mid[1]);
    assert(mid.skip(1).skip(1).len() == 0);
    assert(run_spec(st2, mid.skip(1).skip(1)) == Ok::<ParserStateModel, ParseError>(st2));
    assert(run_spec(st2, mid.skip(1)) == Ok::<ParserStateModel, ParseError>(st2));
    assert(run_spec(st2, mid) == Ok::<ParserStateModel, ParseError>(st2));

    // The segment elements fill the segments in order.
    lemma_run_segments(st2, f.segments);
    let st3 = ParserStateModel {
        file_b: NzbFileBuilderModel {
            segments: st2.file_b.segments + f.segments.map_values(
                |s: SegmentDoc| segment_of(s),
            ),
            ..st2.file_b
        },
        ..st2
    };

    // The end tag finalizes the record and resets the builder.
    assert(st3.file_b.can_finalize()) by {
        assert(fb1.groups + f.groups =~= f.groups);
    }
    let produced = NzbFileModel {
        filename: st3.file_b.filename.unwrap(),
        groups: st3.file_b.groups,
        segments: st3.file_b.segments,
    };
    let st4 = ParserStateModel {
        files: st3.files.push(produced),
        file_b: NzbFileBuilderModel::empty(),
        ..st3
    };
    assert(step_spec(st3, tail[1]) == Ok::<ParserStateModel, ParseError>(st4));
    assert(step_spec(st3, tail[0]) == Ok::<ParserStateModel, ParseError>(st3));
    assert(tail.skip(1)[0] == tail[1]);
    assert(tail.skip(1).skip(1).len() == 0);
    assert(run_spec(st4, tail.skip(1).skip(1)) == Ok::<ParserStateModel, ParseError>(st4));
    assert(run_spec(st3, tail.skip(1)) == Ok::<ParserStateModel, ParseError>(st4));
    assert(run_spec(st3, tail) == Ok::<ParserStateModel, ParseError>(st4));

    // Chain the five pieces.
    lemma_run_append(st, head + groups_tokens(f.groups) + mid + segments_tokens(f.segments), tail);
    lemma_run_append(st, head + groups_tokens(f.groups) + mid, segments_tokens(f.segments));
    lemma_run_append(st, head + groups_tokens(f.groups), mid);
    lemma_run_append(st, head, groups_tokens(f.groups));
    assert(produced =~= file_of(f)) by {
        assert(fb1.groups + f.groups =~= f.groups);
        assert(st2.file_b.segments =~= Seq::<SegmentModel>::empty());
        assert(st3.file_b.segments =~= f.segments.map_values(|s: SegmentDoc| segment_of(s)));
    }
    assert(st4 =~= (ParserStateModel { files: st.files.push(file_of(f)), ..st }));
}

/// A run of well-formed file elements emits their records in order.
proof fn lemma_run_doc(st: ParserStateModel, fs: Seq<FileDoc>)
    requires
        st.file_b == NzbFileBuilderModel::empty(),
        st.seg_b == SegmentBuilderModel::empty(),
        !st.in_group,
        doc_wf(fs),
    ensures
        run_spec(st, doc_tokens(fs)) == Ok::<ParserStateModel, ParseError>(
            ParserStateModel { files: st.files + files_of(fs), ..st },
        ),
    decreases fs.len(),
{
    if fs.len() == 0 {
        assert(st.files + files_of(fs) =~= st.files);
        assert((ParserStateModel { files: st.files + files_of(fs), ..st }) =~= st);
    } else {
        lemma_run_file(st, fs[0]);
        let st2 = ParserStateModel { files: st.files.push(file_of(fs[0])), ..st };
        lemma_run_append(st, file_tokens(fs[0]), doc_tokens(fs.skip(1)));
        assert(doc_wf(fs.skip(1))) by {
            assert(forall|i: int|
                0 <= i < fs.skip(1).len() ==> fs.skip(1)[i] == fs[i + 1]);
        }
        lemma_run_doc(st2, fs.skip(1));
        assert(st.files.push(file_of(fs[0])) + files_of(fs.skip(1)) =~= st.files + files_of(fs));
    }
}

/// For any well-formed NZB document, parsing yields exactly one record
/// per file element, in document order, each with its groups and its
/// segments in document order.
pub proof fn lemma_parse_canonical_document(fs: Seq<FileDoc>)
    requires
        doc_wf(fs),
    ensures
        parse_tokens_spec(doc_tokens(fs)) == Ok::<Seq<NzbFileModel>, ParseError>(files_of(fs)),
{
    lemma_run_doc(init_state(), fs);
    assert(init_state().files + files_of(fs) =~= files_of(fs));
}

} // verus!
