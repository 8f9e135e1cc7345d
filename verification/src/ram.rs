//! The memory-backed disk that downloads can be processed on: its name,
//! derived from a hash of the media ID, and where it is mounted.

use vstd::prelude::*;
use vstd::utf8::encode_utf8;
use crate::text::{push_char, to_owned_string};

verus! {

/// A mounted memory disk; dropping the app's guard unmounts it.
pub struct RamDiskGuard {
    pub mount_path: String,
}

/// The SHA-256 digest of `data`.
pub uninterp spec fn sha256_of(data: Seq<u8>) -> Seq<u8>;

/// The SHA-256 digest of `data` (`sha2::Sha256::digest`): a function of the
/// data alone, 32 bytes long; its bytes are left unstated.
#[verifier::external_body]
fn sha256(data: &[u8]) -> (r: Vec<u8>)
    ensures
        r@ == sha256_of(data@),
        r@.len() == 32,
{
    <sha2::Sha256 as sha2::Digest>::digest(data).to_vec()
}

/// The lowercase hexadecimal digit of `d` (below 16).
pub open spec fn hex_digit(d: int) -> char {
    if d < 10 {
        (d + 48) as char
    } else {
        (d + 87) as char
    }
}

/// The lowercase hexadecimal writing of `bytes`, two digits per byte.
pub open spec fn hex_lower(bytes: Seq<u8>) -> Seq<char>
    decreases bytes.len(),
{
    if bytes.len() == 0 {
        seq![]
    } else {
        hex_lower(bytes.drop_last()) + seq![
            hex_digit(bytes.last() as int / 16),
            hex_digit(bytes.last() as int % 16),
        ]
    }
}

fn hex_digit_exec(d: u8) -> (c: char)
    requires
        d < 16,
    ensures
        c == hex_digit(d as int),
{
    let c = if d == 0 { '0' } else if d == 1 { '1' } else if d == 2 { '2' } else if d == 3 {
        '3'
    } else if d == 4 { '4' } else if d == 5 { '5' } else if d == 6 { '6' } else if d == 7 {
        '7'
    } else if d == 8 { '8' } else if d == 9 { '9' } else if d == 10 { 'a' } else if d == 11 {
        'b'
    } else if d == 12 { 'c' } else if d == 13 { 'd' } else if d == 14 { 'e' } else { 'f' };
    c
}

/// Writes `bytes` in lowercase hexadecimal.
pub fn to_hex_lower(bytes: &[u8]) -> (r: String)
    ensures
        r@ == hex_lower(bytes@),
{
    let n = bytes.len();
    let mut r = String::new();
    let mut i: usize = 0;
    while i < n
        invariant
            n == bytes@.len(),
            i <= n,
            r@ == hex_lower(bytes@.subrange(0, i as int)),
        decreases n - i,
    {
        let b = bytes[i];
        assert(bytes@.subrange(0, i + 1).drop_last() =~= bytes@.subrange(0, i as int));
        push_char(&mut r, hex_digit_exec(b / 16));
        push_char(&mut r, hex_digit_exec(b % 16));
        i = i + 1;
        assert(r@ =~= hex_lower(bytes@.subrange(0, i as int)));
    }
    assert(bytes@.subrange(0, n as int) =~= bytes@);
    r
}

/// The name part of a memory disk: the SHA-256 digest of the media ID's
/// UTF-8 bytes in lowercase hexadecimal.
pub fn ram_disk_hash(id: &str) -> (r: String)
    ensures
        r@ == hex_lower(sha256_of(encode_utf8(id@))),
{
    let digest = sha256(id.as_bytes());
    to_hex_lower(digest.as_slice())
}

/// The volume name of the disk: `tmp_<hash>`.
pub fn ram_volume_name(hash: &str) -> (r: String)
    ensures
        r@ == "tmp_"@ + hash@,
{
    let mut r = String::from_str("tmp_");
    r.append(hash);
    r
}

/// Where a volume is mounted on macOS: `/Volumes/<name>`.
pub fn macos_mount_path(volume: &str) -> (r: String)
    ensures
        r@ == "/Volumes/"@ + volume@,
{
    let mut r = String::from_str("/Volumes/");
    r.append(volume);
    r
}

/// `dir` and `name` joined as `Path::join` joins a relative name: with a `/`
/// between them unless `dir` is empty or already ends with one.
pub open spec fn path_join(dir: Seq<char>, name: Seq<char>) -> Seq<char> {
    if dir.len() == 0 || dir.last() == '/' {
        dir + name
    } else {
        dir + seq!['/'] + name
    }
}

/// Joins a relative name to a folder.
pub fn join_path(dir: &str, name: &str) -> (r: String)
    ensures
        r@ == path_join(dir@, name@),
{
    let n = dir.unicode_len();
    let mut r = to_owned_string(dir);
    if n > 0 && dir.get_char(n - 1) != '/' {
        push_char(&mut r, '/');
    }
    r.append(name);
    r
}

/// The start of the path component that ends at `j`: just after the last
/// `/` before `j`, or 0.
pub open spec fn component_start(s: Seq<char>, j: int) -> int
    decreases j,
{
    if j <= 0 {
        0
    } else if s[j - 1] == '/' {
        j
    } else {
        component_start(s, j - 1)
    }
}

/// The last file name among the first `j` characters of a path, as
/// `Path::file_name` gives it: the last component that is neither empty nor
/// `.`, unless it is `..`; `None` when there is none.
pub open spec fn file_name_before(s: Seq<char>, j: int) -> Option<Seq<char>>
    decreases j,
{
    if j <= 0 || j > s.len() {
        None
    } else if s[j - 1] == '/' {
        file_name_before(s, j - 1)
    } else {
        let seg = s.subrange(component_start(s, j), j);
        if seg == seq!['.'] {
            file_name_before(s, j - 1)
        } else if seg == seq!['.', '.'] {
            None
        } else {
            Some(seg)
        }
    }
}

/// The file name of a path.
pub open spec fn file_name(s: Seq<char>) -> Option<Seq<char>> {
    file_name_before(s, s.len() as int)
}

proof fn lemma_component_start(s: Seq<char>, j: int)
    requires
        0 <= j <= s.len(),
    ensures
        0 <= component_start(s, j) <= j,
        forall|k: int| component_start(s, j) <= k < j ==> s[k] != '/',
        component_start(s, j) > 0 ==> s[component_start(s, j) - 1] == '/',
    decreases j,
{
    if j > 0 && s[j - 1] != '/' {
        lemma_component_start(s, j - 1);
    }
}

/// Finds the start of the path component that ends at `j`.
fn component_start_exec(s: &str, j: usize) -> (r: usize)
    requires
        j <= s@.len(),
    ensures
        r == component_start(s@, j as int),
        r <= j,
        j > 0 && s@[j - 1] != '/' ==> r < j,
{
    let mut i = j;
    while i > 0 && s.get_char(i - 1) != '/'
        invariant
            i <= j <= s@.len(),
            component_start(s@, j as int) == component_start(s@, i as int),
        decreases i,
    {
        i = i - 1;
    }
    proof {
        lemma_component_start(s@, i as int);
        if j > 0 && s@[j - 1] != '/' {
            lemma_component_start(s@, j - 1);
        }
    }
    i
}

/// The file name of a path, as `Path::file_name` gives it.
pub fn path_file_name(path: &str) -> (r: Option<&str>)
    ensures
        match r {
            Some(f) => file_name(path@) == Some(f@),
            None => file_name(path@) is None,
        },
{
    let n = path.unicode_len();
    let mut j = n;
    while j > 0
        invariant
            j <= n,
            n == path@.len(),
            file_name(path@) == file_name_before(path@, j as int),
        decreases j,
    {
        if path.get_char(j - 1) == '/' {
            j = j - 1;
        } else {
            let i = component_start_exec(path, j);
            let len = j - i;
            let seg = path.substring_char(i, j);
            assert(seg@.len() == len);
            let first_dot = path.get_char(i) == '.';
            let second_dot = len >= 2 && path.get_char(i + 1) == '.';
            assert(first_dot == (seg@[0] == '.'));
            assert(len >= 2 ==> (second_dot == (seg@[1] == '.')));
            if len == 1 && first_dot {
                assert(seg@ =~= seq!['.']);
                j = j - 1;
            } else if len == 2 && first_dot && second_dot {
                assert(seg@ =~= seq!['.', '.']);
                return None;
            } else {
                assert(seg@ != seq!['.']) by {
                    if seg@ =~= seq!['.'] {
                        assert(seg@[0] == '.');
                    }
                }
                assert(seg@ != seq!['.', '.']) by {
                    if seg@ =~= seq!['.', '.'] {
                        assert(seg@[0] == '.' && seg@[1] == '.');
                    }
                }
                return Some(seg);
            }
        }
    }
    None
}

/// Where a download goes on the memory disk: the output's file name joined
/// to the disk's folder, or `None` when the output path has no file name.
pub fn ram_output_path(ram_dir: &str, output_path: &str) -> (r: Option<String>)
    ensures
        match file_name(output_path@) {
            Some(f) => r matches Some(p) && p@ == path_join(ram_dir@, f),
            None => r is None,
        },
{
    match path_file_name(output_path) {
        Some(f) => Some(join_path(ram_dir, f)),
        None => None,
    }
}

/// The home folder the memory disk is mounted under on Linux: `$HOME`, or
/// `/root` when it is not set.
pub fn home_or_default(home: Option<&str>) -> (r: String)
    ensures
        r@ == match home {
            Some(h) => h@,
            None => "/root"@,
        },
{
    match home {
        Some(h) => to_owned_string(h),
        None => String::from_str("/root"),
    }
}

/// Where the memory disk is mounted on Linux: the volume name joined to the
/// home folder.
pub fn linux_mount_path(home: &str, volume: &str) -> (r: String)
    ensures
        r@ == path_join(home@, volume@),
{
    join_path(home, volume)
}

/// The hexadecimal writing has two digits per byte.
pub proof fn lemma_hex_len(bytes: Seq<u8>)
    ensures
        hex_lower(bytes).len() == 2 * bytes.len(),
    decreases bytes.len(),
{
    if bytes.len() > 0 {
        lemma_hex_len(bytes.drop_last());
    }
}

} // verus!
