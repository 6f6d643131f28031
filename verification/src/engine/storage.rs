//! Where a table lives: local paths and S3 URIs, and the object keys that an
//! S3 table's files have.
use crate::text::{
    chars_of, find_char, find_from, has_prefix, lemma_find_from, slice_range, spec_trim,
    starts_with, string_from_chars, trim,
};
use vstd::prelude::*;

verus! {

/// `s` without every leading repetition of the non-empty `p`
/// (`str::trim_start_matches` with a string pattern).
pub open spec fn strip_all_prefix(s: Seq<char>, p: Seq<char>) -> Seq<char>
    decreases s.len(),
{
    if p.len() > 0 && has_prefix(s, p) {
        strip_all_prefix(s.skip(p.len() as int), p)
    } else {
        s
    }
}

/// `s` without its trailing `c`s (`str::trim_end_matches` with a `char`).
pub open spec fn trim_end_char(s: Seq<char>, c: char) -> Seq<char>
    decreases s.len(),
{
    if s.len() > 0 && s.last() == c {
        trim_end_char(s.drop_last(), c)
    } else {
        s
    }
}

/// `s` with its leading repetitions of the non-empty `p` removed.
pub fn strip_repeated_prefix(s: &[char], p: &[char]) -> (out: Vec<char>)
    requires
        p@.len() > 0,
    ensures
        out@ == strip_all_prefix(s@, p@),
{
    let mut start: usize = 0;
    let sl = s.len();
    let mut cur = slice_range(s, 0, s.len());
    assert(s@.skip(0) =~= s@);
    while starts_with(&cur, p)
        invariant
            sl == s@.len(),
            p@.len() > 0,
            start <= s@.len(),
            cur@ == s@.skip(start as int),
            strip_all_prefix(s@, p@) == strip_all_prefix(cur@, p@),
        decreases s@.len() - start,
    {
        assert(p@.len() <= cur@.len());
        let next = start + p.len();
        let rest = slice_range(s, next, s.len());
        assert(rest@ =~= cur@.skip(p@.len() as int));
        cur = rest;
        start = next;
    }
    cur
}

/// `s` with its trailing `c`s removed.
pub fn strip_trailing(s: &[char], c: char) -> (out: Vec<char>)
    ensures
        out@ == trim_end_char(s@, c),
{
    let mut end = s.len();
    assert(s@.take(end as int) =~= s@);
    while end > 0 && s[end - 1] == c
        invariant
            end <= s@.len(),
            trim_end_char(s@, c) == trim_end_char(s@.take(end as int), c),
        decreases end,
    {
        assert(s@.take(end as int).drop_last() =~= s@.take(end - 1));
        end -= 1;
    }
    let out = slice_range(s, 0, end);
    assert(out@ =~= s@.take(end as int));
    out
}

/// The table root of a local file system path.
pub struct LocalStorage {
    root: String,
}

impl LocalStorage {
    /// A local table rooted at `root`.
    pub fn new(root: String) -> (s: Self)
        ensures
            s.root()@ == root@,
    {
        LocalStorage { root }
    }

    /// The root path.
    pub closed spec fn root(&self) -> String {
        self.root
    }

    /// The root path.
    pub fn root_display(&self) -> (r: &str)
        ensures
            r@ == self.root()@,
    {
        self.root.as_str()
    }
}

/// The storage that a table URI names.
#[derive(Debug)]
pub enum StorageTarget {
    /// An S3 bucket: the bucket name, the key prefix of the table (without a
    /// trailing `/`), the URI as given, and the table root (without a trailing
    /// `/`).
    S3 { bucket: String, prefix: String, display_uri: String, root: String },
    /// A local path, relative or absolute.
    Local { path: String },
}

/// The part of `s` before the first `c`, and the part after it, if `s`
/// contains `c` (`str::split_once`).
pub open spec fn split_once(s: Seq<char>, c: char) -> Option<(Seq<char>, Seq<char>)> {
    let i = find_from(s, c, 0);
    if i < s.len() {
        Some((s.take(i), s.skip(i + 1)))
    } else {
        None
    }
}

/// The storage that the URI `uri` names, before local paths are made absolute.
pub open spec fn spec_storage_target(uri: Seq<char>) -> (bool, Seq<char>, Seq<char>, Seq<char>, Seq<char>) {
    let u = spec_trim(uri);
    if has_prefix(u, "s3://"@) {
        let rest = strip_all_prefix(u, "s3://"@);
        let (bucket, key) = match split_once(rest, '/') {
            Some(p) => p,
            None => (rest, Seq::<char>::empty()),
        };
        (true, bucket, trim_end_char(key, '/'), u, trim_end_char(u, '/'))
    } else if has_prefix(u, "file://"@) {
        (false, strip_all_prefix(u, "file://"@), Seq::empty(), Seq::empty(), Seq::empty())
    } else {
        (false, u, Seq::empty(), Seq::empty(), Seq::empty())
    }
}

/// The content of a storage target, in the shape of [`spec_storage_target`].
pub open spec fn target_view(t: StorageTarget) -> (bool, Seq<char>, Seq<char>, Seq<char>, Seq<char>) {
    match t {
        StorageTarget::S3 { bucket, prefix, display_uri, root } => (
            true,
            bucket@,
            prefix@,
            display_uri@,
            root@,
        ),
        StorageTarget::Local { path } => (false, path@, Seq::empty(), Seq::empty(), Seq::empty()),
    }
}

fn split_once_char(s: &[char], c: char) -> (r: Option<(Vec<char>, Vec<char>)>)
    ensures
        match r {
            Some(p) => split_once(s@, c) == Some((p.0@, p.1@)),
            None => split_once(s@, c) is None,
        },
{
    let i = find_char(s, c, 0);
    proof {
        lemma_find_from(s@, c, 0);
    }
    if i < s.len() {
        let a = slice_range(s, 0, i);
        let b = slice_range(s, i + 1, s.len());
        assert(a@ =~= s@.take(i as int));
        assert(b@ =~= s@.skip(i + 1));
        Some((a, b))
    } else {
        None
    }
}

/// Parses a table URI: `s3://bucket/prefix`, `file://path`, or a bare path.
pub fn parse_storage_uri(uri: &str) -> (t: StorageTarget)
    ensures
        target_view(t) == spec_storage_target(uri@),
{
    let u = trim(&chars_of(uri));
    let s3 = chars_of("s3://");
    let file = chars_of("file://");
    proof {
        reveal_strlit("s3://");
        reveal_strlit("file://");
    }
    if starts_with(&u, &s3) {
        let rest = strip_repeated_prefix(&u, &s3);
        let (bucket, key) = match split_once_char(&rest, '/') {
            Some(p) => p,
            None => (rest, Vec::new()),
        };
        assert(key@ == (match split_once(strip_all_prefix(u@, "s3://"@), '/') {
            Some(p) => p,
            None => (strip_all_prefix(u@, "s3://"@), Seq::<char>::empty()),
        }).1);
        let prefix = strip_trailing(&key, '/');
        let root = strip_trailing(&u, '/');
        StorageTarget::S3 {
            bucket: string_from_chars(&bucket),
            prefix: string_from_chars(&prefix),
            display_uri: string_from_chars(&u),
            root: string_from_chars(&root),
        }
    } else if starts_with(&u, &file) {
        let path = strip_repeated_prefix(&u, &file);
        StorageTarget::Local { path: string_from_chars(&path) }
    } else {
        StorageTarget::Local { path: string_from_chars(&u) }
    }
}

/// The object key of `subpath` under the key prefix `prefix` of an S3 table.
pub open spec fn spec_object_key(prefix: Seq<char>, subpath: Seq<char>) -> Seq<char> {
    let sub = strip_all_prefix(subpath, seq!['/']);
    if prefix.len() == 0 {
        sub
    } else if subpath.len() == 0 {
        prefix
    } else {
        prefix + seq!['/'] + sub
    }
}

/// The object key of `subpath` under the key prefix `prefix` of an S3 table.
pub fn object_key(prefix: &str, subpath: &str) -> (k: String)
    ensures
        k@ == spec_object_key(prefix@, subpath@),
{
    let pc = chars_of(prefix);
    let sc = chars_of(subpath);
    let slash = vec!['/'];
    let sub = strip_repeated_prefix(&sc, &slash);
    assert(slash@ =~= seq!['/']);
    if pc.len() == 0 {
        string_from_chars(&sub)
    } else if sc.len() == 0 {
        string_from_chars(&pc)
    } else {
        let mut out = pc;
        out.push('/');
        let mut i: usize = 0;
        let ghost head = out@;
        while i < sub.len()
            invariant
                i <= sub@.len(),
                out@ == head + sub@.take(i as int),
            decreases sub@.len() - i,
        {
            out.push(sub[i]);
            assert(sub@.take(i + 1) =~= sub@.take(i as int).push(sub@[i as int]));
            i += 1;
        }
        assert(sub@.take(i as int) =~= sub@);
        string_from_chars(&out)
    }
}

/// The bucket named in an `s3://bucket/...` URI, or `unknown`.
pub open spec fn spec_bucket_name(uri: Seq<char>) -> Seq<char> {
    if has_prefix(uri, "s3://"@) {
        let rest = uri.skip(5);
        rest.take(find_from(rest, '/', 0))
    } else {
        "unknown"@
    }
}

/// The bucket named in an `s3://bucket/...` URI, or `unknown`.
pub fn bucket_name(uri: &str) -> (b: String)
    ensures
        b@ == spec_bucket_name(uri@),
{
    let u = chars_of(uri);
    let p = chars_of("s3://");
    proof {
        reveal_strlit("s3://");
    }
    if starts_with(&u, &p) {
        let rest = slice_range(&u, 5, u.len());
        assert(rest@ =~= u@.skip(5));
        let cut = find_char(&rest, '/', 0);
        proof {
            lemma_find_from(rest@, '/', 0);
        }
        let b = slice_range(&rest, 0, cut);
        assert(b@ =~= rest@.take(cut as int));
        string_from_chars(&b)
    } else {
        "unknown".to_owned()
    }
}

/// The object key of a full `s3://bucket/key` URI; other paths are their own
/// key.
pub open spec fn spec_key_of(path: Seq<char>) -> Seq<char> {
    if has_prefix(path, "s3://"@) {
        match split_once(path.skip(5), '/') {
            Some(p) => p.1,
            None => path,
        }
    } else {
        path
    }
}

/// The object key of a full `s3://bucket/key` URI; other paths are their own
/// key.
pub fn key_of(path: &str) -> (k: String)
    ensures
        k@ == spec_key_of(path@),
{
    let u = chars_of(path);
    let p = chars_of("s3://");
    proof {
        reveal_strlit("s3://");
    }
    if starts_with(&u, &p) {
        let rest = slice_range(&u, 5, u.len());
        assert(rest@ =~= u@.skip(5));
        match split_once_char(&rest, '/') {
            Some((_, key)) => string_from_chars(&key),
            None => string_from_chars(&u),
        }
    } else {
        string_from_chars(&u)
    }
}

/// The key that lists the objects under `key` as a directory: `key` without
/// its trailing `/`s, then one `/`.
pub fn dir_key(key: &str) -> (k: String)
    ensures
        k@ == trim_end_char(key@, '/').push('/'),
{
    let mut out = strip_trailing(&chars_of(key), '/');
    out.push('/');
    string_from_chars(&out)
}

/// The `s3://` URI of the object `key` in `bucket`.
pub fn object_uri(bucket: &str, key: &str) -> (u: String)
    ensures
        u@ == "s3://"@ + bucket@ + seq!['/'] + key@,
{
    let mut out = chars_of("s3://");
    let b = chars_of(bucket);
    let k = chars_of(key);
    let ghost head = out@;
    let mut i: usize = 0;
    while i < b.len()
        invariant
            i <= b@.len(),
            out@ == head + b@.take(i as int),
        decreases b@.len() - i,
    {
        out.push(b[i]);
        i += 1;
    }
    assert(b@.take(i as int) =~= b@);
    out.push('/');
    let ghost mid = out@;
    let mut j: usize = 0;
    while j < k.len()
        invariant
            j <= k@.len(),
            out@ == mid + k@.take(j as int),
        decreases k@.len() - j,
    {
        out.push(k[j]);
        j += 1;
    }
    assert(k@.take(j as int) =~= k@);
    assert(out@ =~= "s3://"@ + bucket@ + seq!['/'] + key@);
    string_from_chars(&out)
}

} // verus!
