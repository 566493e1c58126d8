//! File-name helpers for the surrounding codec layer: the extension of a
//! file name and the image format it stands for.
//!
//! The extension of a path is read from its final component (after the last
//! `/`): it is what follows the last `.`, unless there is no `.` at all or
//! the only `.` begins the component (a hidden file), in which case there is
//! none.

use vstd::prelude::*;

verus! {

/// An image container format this tool recognises by extension.
#[derive(Clone, Copy, Debug, PartialEq, Eq, Structural)]
pub enum ImageFormat {
    Png,
    Jpeg,
    Gif,
    Bmp,
    Ico,
    Tiff,
    WebP,
    Hdr,
}

/// The index of the last occurrence of `c` in `s`, if any.
pub open spec fn last_pos(s: Seq<char>, c: char) -> Option<int>
    decreases s.len(),
{
    if s.len() == 0 {
        None
    } else if s.last() == c {
        Some(s.len() - 1)
    } else {
        last_pos(s.drop_last(), c)
    }
}

/// Where the final path component starts: right after the last `/`.
pub open spec fn spec_name_start(s: Seq<char>) -> int {
    match last_pos(s, '/') {
        Some(k) => k + 1,
        None => 0,
    }
}

/// The extension of a file name, if it has one.
pub open spec fn spec_extension(s: Seq<char>) -> Option<Seq<char>> {
    let name = s.skip(spec_name_start(s));
    match last_pos(name, '.') {
        None => None,
        Some(j) => if j == 0 {
            None
        } else {
            Some(name.skip(j + 1))
        },
    }
}

/// The format an extension names, if it is a recognised one.
pub open spec fn format_of_ext(e: Seq<char>) -> Option<ImageFormat> {
    if e == "png"@ {
        Some(ImageFormat::Png)
    } else if e == "jpg"@ || e == "jpeg"@ {
        Some(ImageFormat::Jpeg)
    } else if e == "gif"@ {
        Some(ImageFormat::Gif)
    } else if e == "bmp"@ {
        Some(ImageFormat::Bmp)
    } else if e == "ico"@ {
        Some(ImageFormat::Ico)
    } else if e == "tiff"@ {
        Some(ImageFormat::Tiff)
    } else if e == "webp"@ {
        Some(ImageFormat::WebP)
    } else if e == "hdr"@ {
        Some(ImageFormat::Hdr)
    } else {
        None
    }
}

/// The format a file name's extension names, if any.
pub open spec fn spec_get_format(s: Seq<char>) -> Option<ImageFormat> {
    match spec_extension(s) {
        None => None,
        Some(e) => format_of_ext(e),
    }
}

/// The index of the last occurrence of `c` in `s`, scanned from the end.
fn rfind_char(s: &str, c: char) -> (r: Option<usize>)
    ensures
        (match r {
            Some(k) => last_pos(s@, c) == Some(k as int) && k < s@.len(),
            None => last_pos(s@, c) == None::<int>,
        }),
{
    let n = s.unicode_len();
    let mut i = n;
    proof {
        assert(s@.subrange(0, n as int) =~= s@);
    }
    while i > 0
        invariant
            i <= n,
            n == s@.len(),
            last_pos(s@, c) == last_pos(s@.subrange(0, i as int), c),
        decreases i,
    {
        let ch = s.get_char(i - 1);
        proof {
            assert(s@.subrange(0, i as int).last() == s@[i as int - 1]);
            assert(s@.subrange(0, i as int).drop_last() =~= s@.subrange(0, i as int - 1));
        }
        if ch == c {
            return Some(i - 1);
        }
        i = i - 1;
    }
    proof {
        assert(s@.subrange(0, 0) =~= Seq::<char>::empty());
    }
    None
}

/// The extension of the file name, as the command line spells it. A name
/// with no `.` in its final component, or only a leading one, has none.
pub fn get_output_extension(file: &str) -> (r: Option<&str>)
    ensures
        (match r {
            Some(e) => spec_extension(file@) == Some(e@),
            None => spec_extension(file@) == None::<Seq<char>>,
        }),
{
    let n = file.unicode_len();
    let start = match rfind_char(file, '/') {
        Some(k) => k + 1,
        None => 0,
    };
    let name = file.substring_char(start, n);
    proof {
        assert(name@ =~= file@.skip(spec_name_start(file@)));
    }
    match rfind_char(name, '.') {
        None => None,
        Some(j) => {
            if j == 0 {
                None
            } else {
                let nn = name.unicode_len();
                let ext = name.substring_char(j + 1, nn);
                proof {
                    assert(ext@ =~= name@.skip(j + 1));
                }
                Some(ext)
            }
        },
    }
}

/// Character-wise string equality.
fn str_eq(a: &str, b: &str) -> (r: bool)
    ensures
        r == (a@ == b@),
{
    let na = a.unicode_len();
    let nb = b.unicode_len();
    if na != nb {
        return false;
    }
    let mut i: usize = 0;
    while i < na
        invariant
            i <= na,
            na == a@.len(),
            na == b@.len(),
            forall|j: int| 0 <= j < i ==> a@[j] == b@[j],
        decreases na - i,
    {
        if a.get_char(i) != b.get_char(i) {
            return false;
        }
        i = i + 1;
    }
    proof {
        assert(a@ =~= b@);
    }
    true
}

/// The container format a file name asks for, judged by its extension.
pub fn get_format(file: &str) -> (r: Option<ImageFormat>)
    ensures
        r == spec_get_format(file@),
{
    match get_output_extension(file) {
        None => None,
        Some(e) => {
            if str_eq(e, "png") {
                Some(ImageFormat::Png)
            } else if str_eq(e, "jpg") {
                Some(ImageFormat::Jpeg)
            } else if str_eq(e, "jpeg") {
                Some(ImageFormat::Jpeg)
            } else if str_eq(e, "gif") {
                Some(ImageFormat::Gif)
            } else if str_eq(e, "bmp") {
                Some(ImageFormat::Bmp)
            } else if str_eq(e, "ico") {
                Some(ImageFormat::Ico)
            } else if str_eq(e, "tiff") {
                Some(ImageFormat::Tiff)
            } else if str_eq(e, "webp") {
                Some(ImageFormat::WebP)
            } else if str_eq(e, "hdr") {
                Some(ImageFormat::Hdr)
            } else {
                None
            }
        },
    }
}

} // verus!
