//! Locating wheel images by the date in their file names.
use vstd::prelude::*;
use vstd::string::*;
use vstd::utf8::*;
use crate::utils::text::push_char;

verus! {

/// `path.join(part)` as `std::path` does it on Unix, on the UTF-8 bytes:
/// an absolute `part` (one that starts with `/`) replaces the path;
/// otherwise `part` is appended, after a `/` unless the path is empty or
/// already ends with one.
pub open spec fn join_bytes(path: Seq<u8>, part: Seq<u8>) -> Seq<u8> {
    if part.len() > 0 && part[0] == 0x2Fu8 {
        part
    } else if path.len() == 0 || path.last() == 0x2Fu8 {
        path + part
    } else {
        path.push(0x2Fu8) + part
    }
}

/// Where an image named `name` is looked for under `root`:
/// `<root>/<YYYY>/<MM>/<DD>/<name>`, the date being the first eight bytes of
/// the name. There is none when the name is shorter than 14 bytes or when
/// byte 4, 6 or 8 falls inside a character.
pub open spec fn date_path_bytes(root: Seq<u8>, name: Seq<u8>) -> Option<Seq<u8>> {
    if name.len() >= 14 && is_char_boundary(name, 4) && is_char_boundary(name, 6)
        && is_char_boundary(name, 8) {
        Some(
            join_bytes(
                join_bytes(
                    join_bytes(join_bytes(root, name.subrange(0, 4)), name.subrange(4, 6)),
                    name.subrange(6, 8),
                ),
                name,
            ),
        )
    } else {
        None
    }
}

/// The UTF-8 encoding of a concatenation is the concatenation of the encodings.
proof fn lemma_encode_utf8_concat(a: Seq<char>, b: Seq<char>)
    ensures
        encode_utf8(a + b) == encode_utf8(a) + encode_utf8(b),
    decreases a.len(),
{
    if a.len() == 0 {
        assert(a + b =~= b);
        assert(encode_utf8(a) + encode_utf8(b) =~= encode_utf8(b));
    } else {
        lemma_encode_utf8_concat(a.drop_first(), b);
        assert((a + b).drop_first() =~= a.drop_first() + b);
        assert((a + b)[0] == a[0]);
        assert(encode_utf8(a + b) =~= encode_scalar(a[0] as u32) + (encode_utf8(a.drop_first())
            + encode_utf8(b)));
    }
}

/// `/` is encoded as the single byte 0x2F.
proof fn lemma_encode_slash()
    ensures
        encode_utf8(seq!['/']) == seq![0x2Fu8],
{
    let s = seq!['/'];
    assert(('/' as u32) == 0x2Fu32);
    assert((0x2Fu32 & 0x7Fu32) as u8 == 0x2Fu8) by (bit_vector);
    assert(s.drop_first() =~= Seq::<char>::empty());
    assert(encode_utf8(s.drop_first()) =~= Seq::<u8>::empty());
    assert(encode_scalar(0x2Fu32) =~= seq![0x2Fu8]);
    assert(encode_utf8(s) =~= seq![0x2Fu8]);
}

/// A character boundary of a string is one of its tail after an earlier
/// boundary too.
proof fn lemma_boundary_in_tail(b: Seq<u8>, s: int, i: int)
    requires
        valid_utf8(b),
        is_char_boundary(b, s),
        is_char_boundary(b, i),
        0 <= s <= i < b.len(),
    ensures
        is_char_boundary(b.subrange(s, b.len() as int), i - s),
{
    valid_utf8_split(b, s);
    let tail = b.subrange(s, b.len() as int);
    is_char_boundary_iff_not_is_continuation_byte(b, i);
    is_char_boundary_iff_not_is_continuation_byte(tail, i - s);
    assert(tail[i - s] == b[i]);
}

/// Joins `part` onto `path` as [`join_bytes`] says.
fn push_part(path: &mut String, part: &str)
    ensures
        encode_utf8(final(path)@) == join_bytes(encode_utf8(old(path)@), part.spec_bytes()),
{
    let part_bytes = part.as_bytes();
    if part_bytes.len() > 0 && part_bytes[0] == 0x2F {
        *path = String::from_str(part);
        return;
    }
    let needs_separator = {
        let current = path.as_str().as_bytes();
        current.len() > 0 && current[current.len() - 1] != 0x2F
    };
    let ghost start = path@;
    if needs_separator {
        push_char(path, '/');
        proof {
            lemma_encode_utf8_concat(start, seq!['/']);
            assert(start.push('/') =~= start + seq!['/']);
            lemma_encode_slash();
        }
    }
    let ghost middle = path@;
    path.append(part);
    proof {
        lemma_encode_utf8_concat(middle, part@);
    }
}

/// The path of the image named `filename` under `root_dir`, as
/// [`date_path_bytes`] describes it, or `None` where the name cannot carry
/// a date.
pub fn date_path(root_dir: &str, filename: &str) -> (r: Option<String>)
    ensures
        match date_path_bytes(root_dir.spec_bytes(), filename.spec_bytes()) {
            Some(b) => r matches Some(p) && encode_utf8(p@) == b,
            None => r is None,
        },
{
    let ghost b = filename.spec_bytes();
    proof {
        encode_utf8_valid_utf8(filename@);
    }
    let n = filename.as_bytes().len();
    if n < 14 {
        return None;
    }
    if !filename.is_char_boundary(4) || !filename.is_char_boundary(6)
        || !filename.is_char_boundary(8) {
        return None;
    }
    let (year, rest) = filename.split_at(4);
    proof {
        lemma_boundary_in_tail(b, 4, 6);
    }
    let (month, rest) = rest.split_at(2);
    proof {
        lemma_boundary_in_tail(b, 4, 8);
        valid_utf8_split(b, 4);
        lemma_boundary_in_tail(b.subrange(4, b.len() as int), 2, 4);
        assert(b.subrange(4, b.len() as int).subrange(2, b.len() - 4) =~= b.subrange(6, b.len() as int));
        assert(b.subrange(4, b.len() as int).subrange(0, 2) =~= b.subrange(4, 6));
    }
    let (day, _) = rest.split_at(2);
    proof {
        assert(b.subrange(6, b.len() as int).subrange(0, 2) =~= b.subrange(6, 8));
    }
    let mut path = String::from_str(root_dir);
    push_part(&mut path, year);
    push_part(&mut path, month);
    push_part(&mut path, day);
    push_part(&mut path, filename);
    Some(path)
}


/// Whether a regular file exists at `path` (`Path::is_file`). The answer
/// depends on the file system at the moment of the call, so nothing is
/// stated of it.
#[verifier::external_body]
fn path_is_file(path: &str) -> bool {
    std::path::Path::new(path).is_file()
}

/// The outcome of an image lookup once the file system has answered:
/// the candidate path when a file is there, `None` otherwise.
pub fn found_image(candidate: Option<String>, present: bool) -> (r: Option<String>)
    ensures
        r == if present {
            candidate
        } else {
            None
        },
{
    if present {
        candidate
    } else {
        None
    }
}

/// Looks for the image named `filename` under `root_dir` at
/// `<root_dir>/<YYYY>/<MM>/<DD>/<filename>`, the date being the start of
/// the name (for example `20250323120740.png`). Returns that path when a
/// file is there; `None` when the name carries no date or no file is found.
pub fn find_file_by_date_path(root_dir: &str, filename: &str) -> (r: Option<String>)
    ensures
        date_path_bytes(root_dir.spec_bytes(), filename.spec_bytes()) is None ==> r is None,
        r matches Some(p) ==> date_path_bytes(root_dir.spec_bytes(), filename.spec_bytes())
            == Some(encode_utf8(p@)),
{
    match date_path(root_dir, filename) {
        None => None,
        Some(path) => {
            let present = path_is_file(path.as_str());
            found_image(Some(path), present)
        },
    }
}

/// The image path looked up for an optional name: `None` for no name.
pub open spec fn image_candidate(root: Seq<u8>, name: Option<String>) -> Option<Seq<u8>> {
    match name {
        Some(n) => date_path_bytes(root, encode_utf8(n@)),
        None => None,
    }
}

/// Looks up the image of every name under `dir`, in order: one entry per
/// name, `None` where the name is missing, carries no date or no file is
/// there.
pub fn find_images_in(dir: &str, names: &Vec<Option<String>>) -> (r: Vec<Option<String>>)
    ensures
        r@.len() == names@.len(),
        forall|i: int| 0 <= i < r@.len() ==> (#[trigger] r@[i] matches Some(p) ==> image_candidate(
            dir.spec_bytes(),
            names@[i],
        ) == Some(encode_utf8(p@))),
        forall|i: int| 0 <= i < r@.len() ==> image_candidate(dir.spec_bytes(), #[trigger] names@[i])
            is None ==> r@[i] is None,
{
    let mut r: Vec<Option<String>> = Vec::new();
    let mut i: usize = 0;
    while i < names.len()
        invariant
            i <= names.len(),
            r@.len() == i,
            forall|k: int| 0 <= k < i ==> (#[trigger] r@[k] matches Some(p) ==> image_candidate(
                dir.spec_bytes(),
                names@[k],
            ) == Some(encode_utf8(p@))),
            forall|k: int| 0 <= k < i ==> image_candidate(dir.spec_bytes(), #[trigger] names@[k])
                is None ==> r@[k] is None,
        decreases names.len() - i,
    {
        let found = match &names[i] {
            Some(name) => find_file_by_date_path(dir, name.as_str()),
            None => None,
        };
        r.push(found);
        i = i + 1;
    }
    r
}

} // verus!
