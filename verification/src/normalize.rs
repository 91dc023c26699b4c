//! Path normalizer: turns the raw strings the operating system hands over —
//! command-line tokens, `scheme://` URLs, bare paths — into filesystem paths,
//! preserving their order.
//!
//! Normalization never fails a batch: a token beginning with `-` is a
//! process option, not a file, and is dropped; a token that parses as a URL
//! denoting a local path becomes that path; every other token is kept
//! verbatim as a raw path.

use vstd::prelude::*;

verus! {

/// The local filesystem path a token denotes when read as a URL, if any:
/// `None` when the token is not an absolute URL, or is one whose scheme or
/// host admits no local path.
pub uninterp spec fn local_path_of(token: Seq<char>) -> Option<Seq<char>>;

/// Relies on `url::Url::parse` and `url::Url::to_file_path`: whether a
/// string parses as an absolute URL, and which local path such a URL
/// converts to, are functions of the string alone on the host platform.
#[verifier::external_body]
fn url_to_local_path(token: &String) -> (r: Option<String>)
    ensures
        r.deep_view() == local_path_of(token@),
{
    match url::Url::parse(token.as_str()) {
        Ok(parsed) => match parsed.to_file_path() {
            Ok(path) => Some(path.to_string_lossy().into_owned()),
            Err(()) => None,
        },
        Err(_) => None,
    }
}

/// A single raw token, normalized: a flag (leading `-`) is dropped, a URL
/// denoting a local path becomes that path, and any other token is kept
/// verbatim as a raw path.
pub open spec fn normalize_token(token: Seq<char>) -> Option<Seq<char>> {
    if token.len() > 0 && token[0] == '-' {
        None
    } else {
        match local_path_of(token) {
            Some(path) => Some(path),
            None => Some(token),
        }
    }
}

/// A whole sequence of raw tokens, normalized in order: dropped tokens are
/// simply absent, every other token contributes its normalization.
pub open spec fn normalize_tokens(tokens: Seq<Seq<char>>) -> Seq<Seq<char>>
    decreases tokens.len(),
{
    if tokens.len() == 0 {
        Seq::empty()
    } else {
        let rest = normalize_tokens(tokens.drop_first());
        match normalize_token(tokens.first()) {
            Some(path) => seq![path] + rest,
            None => rest,
        }
    }
}

/// What argument normalization yields: the leading token is the process's
/// own name, never a file, and the remaining tokens are normalized in order.
pub open spec fn spec_parse_files(args: Seq<Seq<char>>) -> Seq<Seq<char>> {
    if args.len() == 0 {
        Seq::empty()
    } else {
        normalize_tokens(args.drop_first())
    }
}

/// Normalize a process argument list into the file paths it carries,
/// preserving order. The first argument (the binary's own path) and every
/// flag are dropped; `file` URLs become local paths; all other tokens are
/// taken verbatim as paths, with no existence check.
pub fn parse_files_from_args(args: Vec<String>) -> (files: Vec<String>)
    ensures
        files.deep_view() == spec_parse_files(args.deep_view()),
{
    let ghost all_tokens = args.deep_view();
    let mut files: Vec<String> = Vec::new();
    if args.len() == 0 {
        proof {
            assert(files.deep_view() =~= spec_parse_files(all_tokens));
        }
        return files;
    }
    let ghost tokens = all_tokens.drop_first();
    let mut i: usize = 1;
    proof {
        assert(tokens.skip(0) =~= tokens);
    }
    while i < args.len()
        invariant
            1 <= i <= args.len(),
            all_tokens == args.deep_view(),
            tokens == all_tokens.drop_first(),
            args@.len() == all_tokens.len(),
            files.deep_view() + normalize_tokens(tokens.skip(i - 1)) == normalize_tokens(tokens),
        decreases args.len() - i,
    {
        let ghost remaining = tokens.skip(i - 1);
        proof {
            assert(remaining.first() == all_tokens[i as int]);
            assert(remaining.drop_first() =~= tokens.skip(i as int));
        }
        let token = &args[i];
        let is_flag = token.as_str().unicode_len() > 0 && token.as_str().get_char(0) == '-';
        if !is_flag {
            let ghost before = files.deep_view();
            match url_to_local_path(token) {
                Some(path) => {
                    files.push(path);
                },
                None => {
                    files.push(token.clone());
                },
            }
            proof {
                assert(normalize_token(remaining.first()) is Some);
                assert(files.deep_view() =~= before + seq![
                    normalize_token(remaining.first()).unwrap(),
                ]);
                assert(before + (seq![normalize_token(remaining.first()).unwrap()]
                    + normalize_tokens(remaining.drop_first())) =~= files.deep_view()
                    + normalize_tokens(remaining.drop_first()));
            }
        }
        i = i + 1;
    }
    proof {
        assert(tokens.skip(args@.len() - 1) =~= Seq::<Seq<char>>::empty());
        assert(files.deep_view() + Seq::<Seq<char>>::empty() =~= files.deep_view());
    }
    files
}

} // verus!
