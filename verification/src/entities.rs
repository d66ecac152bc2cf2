//! Immutable file and segment records, and the mutable builders that
//! accumulate their fields during a parse and validate them at each
//! closing element boundary.

use vstd::prelude::*;
use vstd::string::StringExecFns;

use crate::errors::ParseError;

verus! {

/// Mathematical model of a [`Segment`].
#[verifier::ext_equal]
pub ghost struct SegmentModel {
    pub bytes: int,
    pub number: int,
    pub article_id: Seq<char>,
}

/// One numbered article comprising part of a larger binary.
/// Immutable once built.
#[derive(Debug)]
pub struct Segment {
    /// Declared size of the encoded article, in bytes.
    pub bytes: usize,
    /// Sequence position of this segment within its file.
    pub number: u32,
    /// Opaque identifier used to fetch the article, without the enclosing
    /// angle brackets.
    pub article_id: String,
}

impl View for Segment {
    type V = SegmentModel;

    open spec fn view(&self) -> SegmentModel {
        SegmentModel {
            bytes: self.bytes as int,
            number: self.number as int,
            article_id: self.article_id@,
        }
    }
}

impl DeepView for Segment {
    type V = SegmentModel;

    open spec fn deep_view(&self) -> SegmentModel {
        self.view()
    }
}

impl Segment {
    pub fn new(bytes: usize, number: u32, article_id: String) -> (s: Segment)
        ensures
            s@ == (SegmentModel {
                bytes: bytes as int,
                number: number as int,
                article_id: article_id@,
            }),
    {
        Segment { bytes, number, article_id }
    }

    /// The article id wrapped in angle brackets, the form in which the
    /// article store is asked for it.
    pub fn wrapped_article_id(&self) -> (r: String)
        ensures
            r@ == seq!['<'] + self.article_id@ + seq!['>'],
    {
        let mut r = String::from_str("<");
        r.append(self.article_id.as_str());
        r.append(">");
        proof {
            reveal_strlit("<");
            reveal_strlit(">");
            assert(r@ =~= seq!['<'] + self.article_id@ + seq!['>']);
        }
        r
    }
}

/// Mathematical model of an [`NzbFile`].
#[verifier::ext_equal]
pub ghost struct NzbFileModel {
    pub filename: Seq<char>,
    pub groups: Seq<Seq<char>>,
    pub segments: Seq<SegmentModel>,
}

/// One file described by an NZB document: the filename extracted from the
/// subject line, the ordered candidate groups, and the ordered segments.
/// Immutable once built.
#[derive(Debug)]
pub struct NzbFile {
    pub filename: String,
    pub segments: Vec<Segment>,
    pub groups: Vec<String>,
}

impl View for NzbFile {
    type V = NzbFileModel;

    open spec fn view(&self) -> NzbFileModel {
        NzbFileModel {
            filename: self.filename@,
            groups: self.groups.deep_view(),
            segments: self.segments.deep_view(),
        }
    }
}

impl DeepView for NzbFile {
    type V = NzbFileModel;

    open spec fn deep_view(&self) -> NzbFileModel {
        self.view()
    }
}

impl NzbFile {
    pub fn new(filename: String, groups: Vec<String>, segments: Vec<Segment>) -> (f: NzbFile)
        ensures
            f@ == (NzbFileModel {
                filename: filename@,
                groups: groups.deep_view(),
                segments: segments.deep_view(),
            }),
    {
        NzbFile { filename, segments, groups }
    }
}

/// Mathematical model of an [`NzbFileBuilder`].
#[verifier::ext_equal]
pub ghost struct NzbFileBuilderModel {
    pub filename: Option<Seq<char>>,
    pub groups: Seq<Seq<char>>,
    pub segments: Seq<SegmentModel>,
}

impl NzbFileBuilderModel {
    /// The state of a builder holding nothing.
    pub open spec fn empty() -> NzbFileBuilderModel {
        NzbFileBuilderModel {
            filename: None,
            groups: Seq::empty(),
            segments: Seq::empty(),
        }
    }

    /// Finalization succeeds exactly when a non-empty filename and at
    /// least one group are present.
    pub open spec fn can_finalize(self) -> bool {
        &&& self.filename is Some
        &&& self.filename.unwrap().len() > 0
        &&& self.groups.len() > 0
    }
}

/// Accumulates the fields of one [`NzbFile`] while its element is being
/// parsed; validates and resets at the closing "file" boundary.
pub struct NzbFileBuilder {
    filename: Option<String>,
    segments: Vec<Segment>,
    groups: Vec<String>,
}

impl View for NzbFileBuilder {
    type V = NzbFileBuilderModel;

    closed spec fn view(&self) -> NzbFileBuilderModel {
        NzbFileBuilderModel {
            filename: self.filename.deep_view(),
            groups: self.groups.deep_view(),
            segments: self.segments.deep_view(),
        }
    }
}

impl Default for NzbFileBuilder {
    fn default() -> (b: NzbFileBuilder)
        ensures
            b@ == NzbFileBuilderModel::empty(),
    {
        let b = NzbFileBuilder { filename: None, segments: Vec::new(), groups: Vec::new() };
        proof {
            assert(b@ =~= NzbFileBuilderModel::empty());
        }
        b
    }
}

impl NzbFileBuilder {
    pub fn set_filename(&mut self, filename: String)
        ensures
            final(self)@ == (NzbFileBuilderModel { filename: Some(filename@), ..old(self)@ }),
    {
        self.filename = Some(filename);
    }

    pub fn add_group(&mut self, group: String)
        ensures
            final(self)@ == (NzbFileBuilderModel {
                groups: old(self)@.groups.push(group@),
                ..old(self)@
            }),
    {
        self.groups.push(group);
        proof {
            assert(self@ =~= (NzbFileBuilderModel {
                groups: old(self)@.groups.push(group@),
                ..old(self)@
            }));
        }
    }

    pub fn add_segment(&mut self, segment: Segment)
        ensures
            final(self)@ == (NzbFileBuilderModel {
                segments: old(self)@.segments.push(segment@),
                ..old(self)@
            }),
    {
        self.segments.push(segment);
        proof {
            assert(self@ =~= (NzbFileBuilderModel {
                segments: old(self)@.segments.push(segment@),
                ..old(self)@
            }));
        }
    }

    pub fn clear(&mut self)
        ensures
            final(self)@ == NzbFileBuilderModel::empty(),
    {
        self.filename = None;
        self.groups.clear();
        self.segments.clear();
        proof {
            assert(self@ =~= NzbFileBuilderModel::empty());
        }
    }

    /// Validates the accumulated fields and produces the immutable record,
    /// resetting the builder for reuse. Fails exactly when the filename is
    /// unset or empty, or when no group was added.
    pub fn create(&mut self) -> (r: Result<NzbFile, ParseError>)
        ensures
            old(self)@.can_finalize() ==> {
                &&& r is Ok
                &&& r.unwrap()@ == (NzbFileModel {
                    filename: old(self)@.filename.unwrap(),
                    groups: old(self)@.groups,
                    segments: old(self)@.segments,
                })
                &&& final(self)@ == NzbFileBuilderModel::empty()
            },
            !old(self)@.can_finalize() ==> {
                &&& *final(self) == *old(self)
                &&& (old(self)@.filename is None || old(self)@.filename.unwrap().len() == 0)
                    ==> r == Err::<NzbFile, ParseError>(ParseError::MissingFilename)
                &&& (old(self)@.filename is Some && old(self)@.filename.unwrap().len() > 0)
                    ==> r == Err::<NzbFile, ParseError>(ParseError::MissingGroup)
            },
    {
        match &self.filename {
            None => {
                return Err(ParseError::MissingFilename);
            },
            Some(f) => {
                if f.as_str().is_empty() {
                    return Err(ParseError::MissingFilename);
                }
            },
        }
        if self.groups.is_empty() {
            return Err(ParseError::MissingGroup);
        }
        let filename = self.filename.take().unwrap();
        let mut segments: Vec<Segment> = Vec::new();
        let mut groups: Vec<String> = Vec::new();
        core::mem::swap(&mut segments, &mut self.segments);
        core::mem::swap(&mut groups, &mut self.groups);
        let file = NzbFile::new(filename, groups, segments);
        proof {
            assert(self@ =~= NzbFileBuilderModel::empty());
            assert(file@ =~= (NzbFileModel {
                filename: old(self)@.filename.unwrap(),
                groups: old(self)@.groups,
                segments: old(self)@.segments,
            }));
        }
        Ok(file)
    }
}

/// Mathematical model of a [`SegmentBuilder`].
#[verifier::ext_equal]
pub ghost struct SegmentBuilderModel {
    pub bytes: Option<int>,
    pub number: Option<int>,
    pub article_id: Option<Seq<char>>,
}

impl SegmentBuilderModel {
    /// The state of a builder holding nothing.
    pub open spec fn empty() -> SegmentBuilderModel {
        SegmentBuilderModel { bytes: None, number: None, article_id: None }
    }

    /// Finalization succeeds exactly when all three fields are present.
    pub open spec fn can_finalize(self) -> bool {
        self.bytes is Some && self.number is Some && self.article_id is Some
    }
}

/// Accumulates the fields of one [`Segment`] while its element is being
/// parsed; validates and resets at the closing "segment" boundary.
pub struct SegmentBuilder {
    bytes: Option<usize>,
    number: Option<u32>,
    article_id: Option<String>,
}

impl View for SegmentBuilder {
    type V = SegmentBuilderModel;

    closed spec fn view(&self) -> SegmentBuilderModel {
        SegmentBuilderModel {
            bytes: match self.bytes {
                Some(b) => Some(b as int),
                None => None,
            },
            number: match self.number {
                Some(n) => Some(n as int),
                None => None,
            },
            article_id: self.article_id.deep_view(),
        }
    }
}

impl Default for SegmentBuilder {
    fn default() -> (b: SegmentBuilder)
        ensures
            b@ == SegmentBuilderModel::empty(),
    {
        SegmentBuilder { bytes: None, number: None, article_id: None }
    }
}

impl SegmentBuilder {
    pub fn set_bytes(&mut self, bytes: usize)
        ensures
            final(self)@ == (SegmentBuilderModel { bytes: Some(bytes as int), ..old(self)@ }),
    {
        self.bytes = Some(bytes);
    }

    pub fn set_number(&mut self, number: u32)
        ensures
            final(self)@ == (SegmentBuilderModel { number: Some(number as int), ..old(self)@ }),
    {
        self.number = Some(number);
    }

    pub fn set_article_id(&mut self, article_id: String)
        ensures
            final(self)@ == (SegmentBuilderModel {
                article_id: Some(article_id@),
                ..old(self)@
            }),
    {
        self.article_id = Some(article_id);
    }

    pub fn clear(&mut self)
        ensures
            final(self)@ == SegmentBuilderModel::empty(),
    {
        self.bytes = None;
        self.number = None;
        self.article_id = None;
    }

    /// True exactly when no field has been set since the last reset.
    pub fn is_empty(&self) -> (r: bool)
        ensures
            r == (self@ == SegmentBuilderModel::empty()),
    {
        match (&self.bytes, &self.number, &self.article_id) {
            (None, None, None) => true,
            _ => false,
        }
    }

    /// Validates the accumulated fields and produces the immutable record,
    /// resetting the builder for reuse. Fails exactly when the byte count,
    /// the sequence number or the article id is missing.
    pub fn create(&mut self) -> (r: Result<Segment, ParseError>)
        ensures
            old(self)@.can_finalize() ==> {
                &&& r is Ok
                &&& r.unwrap()@ == (SegmentModel {
                    bytes: old(self)@.bytes.unwrap(),
                    number: old(self)@.number.unwrap(),
                    article_id: old(self)@.article_id.unwrap(),
                })
                &&& final(self)@ == SegmentBuilderModel::empty()
            },
            !old(self)@.can_finalize() ==> {
                &&& r == Err::<Segment, ParseError>(ParseError::IncompleteSegment)
                &&& *final(self) == *old(self)
            },
    {
        match (&self.bytes, &self.number, &self.article_id) {
            (Some(_), Some(_), Some(_)) => {},
            _ => {
                return Err(ParseError::IncompleteSegment);
            },
        }
        let bytes = self.bytes.take().unwrap();
        let number = self.number.take().unwrap();
        let article_id = self.article_id.take().unwrap();
        Ok(Segment::new(bytes, number, article_id))
    }
}

} // verus!
