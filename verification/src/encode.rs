//! Payload encoder: turns files that have been read from disk into
//! transport-ready records for the user-interface surface, best-effort per
//! element.
//!
//! The caller reads each path (reads are I/O and may fail at any moment:
//! missing file, permission denied, a race with deletion) and hands in the
//! outcome. For each element the encoder extracts the file name — the last
//! path component — and encodes the contents into transport-safe text;
//! elements whose path names no file or whose read failed are simply absent
//! from the output, never replaced by placeholders, and output order matches
//! input order.

use vstd::prelude::*;

verus! {

/// A path together with the outcome of reading it: `None` when the read
/// failed.
pub struct ReadFile {
    pub path: String,
    pub contents: Option<Vec<u8>>,
}

/// The abstract value of a [`ReadFile`].
pub struct ReadFileView {
    pub path: Seq<char>,
    pub contents: Option<Seq<u8>>,
}

impl View for ReadFile {
    type V = ReadFileView;

    open spec fn view(&self) -> ReadFileView {
        ReadFileView { path: self.path@, contents: self.contents.deep_view() }
    }
}

impl DeepView for ReadFile {
    type V = ReadFileView;

    open spec fn deep_view(&self) -> ReadFileView {
        self.view()
    }
}

/// An immutable snapshot of one file, ready for the delivery channel: its
/// name and its contents as transport-safe text.
pub struct JsFile {
    pub name: String,
    pub content_base64: String,
}

/// The abstract value of a [`JsFile`].
pub struct JsFileView {
    pub name: Seq<char>,
    pub content_base64: Seq<char>,
}

impl View for JsFile {
    type V = JsFileView;

    open spec fn view(&self) -> JsFileView {
        JsFileView { name: self.name@, content_base64: self.content_base64@ }
    }
}

impl DeepView for JsFile {
    type V = JsFileView;

    open spec fn deep_view(&self) -> JsFileView {
        self.view()
    }
}

/// The standard base64 text of a byte sequence.
pub uninterp spec fn base64_of(bytes: Seq<u8>) -> Seq<char>;

/// Whether a file's contents, if any, are small enough that their base64
/// text fits in a `usize`-sized buffer. True of anything that fits in
/// memory; only contents within this machine limit can be encoded.
pub open spec fn encodable(contents: Option<Seq<u8>>) -> bool {
    match contents {
        Some(bytes) => 4 * ((bytes.len() + 2) as int / 3) <= usize::MAX as int,
        None => true,
    }
}

/// Relies on `base64::Engine::encode` with
/// `base64::engine::general_purpose::STANDARD`: base64 over the standard
/// alphabet, with padding — a function of the bytes alone, four output
/// characters for every three input bytes begun. The precondition keeps the
/// output length representable, on which the engine would give up.
#[verifier::external_body]
fn base64_encode(bytes: &Vec<u8>) -> (r: String)
    requires
        4 * ((bytes@.len() + 2) as int / 3) <= usize::MAX as int,
    ensures
        r@ == base64_of(bytes@),
        r@.len() == 4 * ((bytes@.len() + 2) as int / 3),
{
    base64::Engine::encode(&base64::engine::general_purpose::STANDARD, bytes.as_slice())
}

/// The last component of a path: what follows the final `/`, or the whole
/// path when it has none.
pub open spec fn last_component(path: Seq<char>) -> Seq<char>
    decreases path.len(),
{
    if path.len() == 0 {
        path
    } else if path.last() == '/' {
        Seq::empty()
    } else {
        last_component(path.drop_last()).push(path.last())
    }
}

/// The file name a path carries: its last component, except that an empty
/// component, `.` and `..` name no file.
pub open spec fn file_name_of(path: Seq<char>) -> Option<Seq<char>> {
    let name = last_component(path);
    if name.len() == 0 || name == seq!['.'] || name == seq!['.', '.'] {
        None
    } else {
        Some(name)
    }
}

proof fn lemma_last_component_subrange(path: Seq<char>, start: int)
    requires
        0 <= start <= path.len(),
        forall|k: int| start <= k < path.len() ==> path[k] != '/',
        start == 0 || path[start - 1] == '/',
    ensures
        last_component(path) == path.subrange(start, path.len() as int),
    decreases path.len(),
{
    if start == path.len() {
        assert(path.subrange(start, path.len() as int) =~= Seq::<char>::empty());
        if path.len() > 0 {
            assert(path.last() == '/');
        }
    } else {
        assert(path.last() != '/');
        lemma_last_component_subrange(path.drop_last(), start);
        assert(path.subrange(start, path.len() as int) =~= path.drop_last().subrange(
            start,
            path.len() - 1,
        ).push(path.last()));
    }
}

/// Extract the file name from a path: the last path component, or `None`
/// when the path names no file (it ends in a separator, or its last
/// component is `.` or `..`).
pub fn file_name(path: &String) -> (r: Option<String>)
    ensures
        r.deep_view() == file_name_of(path@),
{
    let s = path.as_str();
    let n = s.unicode_len();
    let mut start: usize = 0;
    let mut i: usize = 0;
    while i < n
        invariant
            n == s@.len(),
            s@ == path@,
            0 <= start <= i <= n,
            forall|k: int| start <= k < i ==> s@[k] != '/',
            start == 0 || s@[start - 1] == '/',
        decreases n - i,
    {
        if s.get_char(i) == '/' {
            start = i + 1;
        }
        i = i + 1;
    }
    proof {
        lemma_last_component_subrange(path@, start as int);
    }
    let len = n - start;
    if len == 0 {
        return None;
    }
    if len == 1 && s.get_char(start) == '.' {
        proof {
            assert(last_component(path@) =~= seq!['.']);
        }
        return None;
    }
    if len == 2 && s.get_char(start) == '.' && s.get_char(start + 1) == '.' {
        proof {
            assert(last_component(path@) =~= seq!['.', '.']);
        }
        return None;
    }
    let name = s.substring_char(start, n);
    proof {
        if last_component(path@) == seq!['.'] {
            assert(path@[start as int] == seq!['.'][0]);
        }
        if last_component(path@) == seq!['.', '.'] {
            assert(path@[start as int] == seq!['.', '.'][0]);
            assert(path@[start + 1] == seq!['.', '.'][1]);
        }
    }
    Some(String::from_str(name))
}

/// One read file as a transport-ready record, if it yields one: the record
/// pairs the path's file name with the base64 text of the contents; a path
/// with no file name, or a failed read, yields nothing.
pub open spec fn encode_one_spec(input: ReadFileView) -> Option<JsFileView> {
    match file_name_of(input.path) {
        Some(name) => match input.contents {
            Some(bytes) => Some(JsFileView { name: name, content_base64: base64_of(bytes) }),
            None => None,
        },
        None => None,
    }
}

/// A whole batch of read files as transport-ready records, in input order,
/// with the elements that yield nothing absent.
pub open spec fn encoded_of(inputs: Seq<ReadFileView>) -> Seq<JsFileView>
    decreases inputs.len(),
{
    if inputs.len() == 0 {
        Seq::empty()
    } else {
        let rest = encoded_of(inputs.drop_first());
        match encode_one_spec(inputs.first()) {
            Some(record) => seq![record] + rest,
            None => rest,
        }
    }
}

/// Whether every element of a batch is within the encoding machine limit.
pub open spec fn all_encodable(inputs: Seq<ReadFileView>) -> bool {
    forall|i: int| 0 <= i < inputs.len() ==> encodable(#[trigger] inputs[i].contents)
}

/// Turn one read file into a transport-ready record: the file's name and
/// the base64 text of its contents. Returns `None` — the element is
/// skipped, the batch goes on — when the path carries no file name or the
/// read had failed.
pub fn encode_read(read: &ReadFile) -> (r: Option<JsFile>)
    requires
        encodable(read@.contents),
    ensures
        r.deep_view() == encode_one_spec(read@),
{
    match file_name(&read.path) {
        Some(name) => match &read.contents {
            Some(bytes) => {
                proof {
                    assert(read@.contents == Some(bytes@));
                }
                let encoded = base64_encode(bytes);
                Some(JsFile { name: name, content_base64: encoded })
            },
            None => None,
        },
        None => None,
    }
}

/// Encode a batch of read files, best-effort per element: every element
/// that yields a record contributes it, in input order; failed elements are
/// simply absent, never placeholders.
pub fn prepare_js_files(reads: Vec<ReadFile>) -> (out: Vec<JsFile>)
    requires
        all_encodable(reads.deep_view()),
    ensures
        out.deep_view() == encoded_of(reads.deep_view()),
{
    let ghost inputs = reads.deep_view();
    let mut out: Vec<JsFile> = Vec::new();
    let mut i: usize = 0;
    proof {
        assert(inputs.skip(0) =~= inputs);
    }
    while i < reads.len()
        invariant
            0 <= i <= reads.len(),
            inputs == reads.deep_view(),
            reads@.len() == inputs.len(),
            all_encodable(inputs),
            out.deep_view() + encoded_of(inputs.skip(i as int)) == encoded_of(inputs),
        decreases reads.len() - i,
    {
        let ghost remaining = inputs.skip(i as int);
        proof {
            assert(remaining.first() == inputs[i as int]);
            assert(remaining.drop_first() =~= inputs.skip(i + 1));
        }
        let ghost before = out.deep_view();
        match encode_read(&reads[i]) {
            Some(record) => {
                out.push(record);
                proof {
                    assert(out.deep_view() =~= before + seq![
                        encode_one_spec(remaining.first()).unwrap(),
                    ]);
                    assert(before + (seq![encode_one_spec(remaining.first()).unwrap()]
                        + encoded_of(remaining.drop_first())) =~= out.deep_view() + encoded_of(
                        remaining.drop_first(),
                    ));
                }
            },
            None => {},
        }
        i = i + 1;
    }
    proof {
        assert(inputs.skip(inputs.len() as int) =~= Seq::<ReadFileView>::empty());
        assert(out.deep_view() + Seq::<JsFileView>::empty() =~= out.deep_view());
    }
    out
}

} // verus!
