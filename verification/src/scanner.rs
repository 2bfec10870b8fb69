use vstd::prelude::*;

verus! {

use crate::languages::LanguageKind;
use crate::strutil::{chars_contains, chars_of, contains_seq, lower_of};

/// Scanner size cap when no override is configured: 8 MiB.
pub const DEFAULT_MAX_FILE_BYTES: u64 = 8 * 1024 * 1024;

/// Path fragments that exclude a file from scanning wherever they occur.
pub open spec fn is_ignored_spec(p: Seq<char>) -> bool {
    contains_seq(p, "/.git/"@) || contains_seq(p, "/node_modules/"@) || contains_seq(
        p,
        "/target/"@,
    ) || contains_seq(p, "/build/"@) || contains_seq(p, "/dist/"@) || contains_seq(p, "/.next/"@)
        || contains_seq(p, "/.turbo/"@) || contains_seq(p, "/.pnpm-store/"@) || contains_seq(
        p,
        "/.yarn/cache/"@,
    ) || contains_seq(p, "/.cache/"@) || contains_seq(p, "/coverage/"@) || contains_seq(
        p,
        "/vendor/bundle/"@,
    ) || contains_seq(p, "/Pods/"@) || contains_seq(p, "/DerivedData/"@) || contains_seq(
        p,
        "/.gradle/"@,
    ) || contains_seq(p, "/out/"@) || contains_seq(p, "/bin/"@) || contains_seq(p, "/obj/"@)
}

fn path_contains(cs: &Vec<char>, fragment: &'static str) -> (r: bool)
    ensures
        r == contains_seq(cs@, fragment@),
{
    let f = chars_of(fragment);
    chars_contains(cs, &f)
}

pub fn is_ignored_path(path: &str) -> (r: bool)
    ensures
        r == is_ignored_spec(path@),
{
    let cs = chars_of(path);
    path_contains(&cs, "/.git/") || path_contains(&cs, "/node_modules/") || path_contains(
        &cs,
        "/target/",
    ) || path_contains(&cs, "/build/") || path_contains(&cs, "/dist/") || path_contains(
        &cs,
        "/.next/",
    ) || path_contains(&cs, "/.turbo/") || path_contains(&cs, "/.pnpm-store/") || path_contains(
        &cs,
        "/.yarn/cache/",
    ) || path_contains(&cs, "/.cache/") || path_contains(&cs, "/coverage/") || path_contains(
        &cs,
        "/vendor/bundle/",
    ) || path_contains(&cs, "/Pods/") || path_contains(&cs, "/DerivedData/") || path_contains(
        &cs,
        "/.gradle/",
    ) || path_contains(&cs, "/out/") || path_contains(&cs, "/bin/") || path_contains(&cs, "/obj/")
}

pub fn is_supported_source_file(path: &str) -> (r: bool)
    ensures
        r == (LanguageKind::from_path_spec(lower_of(path@)) is Some),
{
    LanguageKind::from_path(path).is_some()
}

/// A NUL byte among the first 512 bytes marks the file as binary.
pub open spec fn has_nul_in_head(bytes: Seq<u8>) -> bool {
    exists|i: int| 0 <= i < bytes.len() && i < 512 && bytes[i] == 0u8
}

pub fn is_probably_binary(head: &Vec<u8>) -> (r: bool)
    ensures
        r == has_nul_in_head(head@),
{
    let mut i: usize = 0;
    let n = head.len();
    while i < n && i < 512
        invariant
            n == head@.len(),
            i <= n,
            i <= 512,
            forall|k: int| 0 <= k < i ==> head@[k] != 0u8,
        decreases n - i,
    {
        if head[i] == 0u8 {
            return true;
        }
        i = i + 1;
    }
    false
}

/// Whether one scanned entry is kept: not a directory, a supported source
/// extension, no ignored path fragment, within the size cap, and no NUL
/// byte in the first 512 content bytes.
pub open spec fn scan_accepts_spec(
    path: Seq<char>,
    is_dir: bool,
    size: u64,
    max_file_bytes: u64,
    head: Seq<u8>,
) -> bool {
    &&& !is_dir
    &&& LanguageKind::from_path_spec(lower_of(path)) is Some
    &&& !is_ignored_spec(path)
    &&& size <= max_file_bytes
    &&& !has_nul_in_head(head)
}

pub fn scan_accepts(
    path: &str,
    is_dir: bool,
    size: u64,
    max_file_bytes: u64,
    head: &Vec<u8>,
) -> (r: bool)
    ensures
        r == scan_accepts_spec(path@, is_dir, size, max_file_bytes, head@),
{
    if is_dir {
        return false;
    }
    if !is_supported_source_file(path) {
        return false;
    }
    if is_ignored_path(path) {
        return false;
    }
    if size > max_file_bytes {
        return false;
    }
    if is_probably_binary(head) {
        return false;
    }
    true
}

/// A path containing `/node_modules/`, or a file with a binary byte in its
/// first 512 bytes, is never accepted, whatever its extension.
pub proof fn lemma_scan_exclusions(
    path: Seq<char>,
    is_dir: bool,
    size: u64,
    max_file_bytes: u64,
    head: Seq<u8>,
)
    ensures
        contains_seq(path, "/node_modules/"@) ==> !scan_accepts_spec(
            path,
            is_dir,
            size,
            max_file_bytes,
            head,
        ),
        has_nul_in_head(head) ==> !scan_accepts_spec(path, is_dir, size, max_file_bytes, head),
{
}

} // verus!
