//! The version of the client release offered for download: the name of the
//! one file in the release directory, without its extension.

use vstd::prelude::*;
use crate::error::AppError;
use crate::text::utf8_to_string;

verus! {

/// A directory entry: its name (bytes, as the file system holds them) and
/// whether it is a regular file.
#[derive(Debug)]
pub struct DirEntry {
    pub name: Vec<u8>,
    pub is_file: bool,
}

/// The position of the last `.` in `name`, if any.
pub open spec fn last_dot(name: Seq<u8>) -> Option<int>
    decreases name.len(),
{
    if name.len() == 0 {
        None
    } else if name.last() == 0x2e {
        Some(name.len() - 1)
    } else {
        last_dot(name.drop_last())
    }
}

/// The stem of a file name, as `Path::file_stem` takes it: the name without
/// its last `.` and what follows; the whole name when it has no `.`, when its
/// only `.` is the first byte, or when it is `..`.
pub open spec fn file_stem(name: Seq<u8>) -> Seq<u8> {
    if name == seq![0x2eu8, 0x2eu8] {
        name
    } else {
        match last_dot(name) {
            None => name,
            Some(i) => if i == 0 {
                name
            } else {
                name.subrange(0, i)
            },
        }
    }
}

proof fn lemma_last_dot(name: Seq<u8>, i: int)
    requires
        0 <= i <= name.len(),
        forall|j: int| i <= j < name.len() ==> name[j] != 0x2e,
    ensures
        last_dot(name) == last_dot(name.subrange(0, i)),
    decreases name.len() - i,
{
    if i < name.len() {
        lemma_last_dot(name.drop_last(), i);
        assert(name.drop_last().subrange(0, i) == name.subrange(0, i));
    } else {
        assert(name.subrange(0, i) == name);
    }
}

/// The stem of a file name.
pub fn stem_of(name: &Vec<u8>) -> (res: Vec<u8>)
    ensures
        res@ == file_stem(name@),
{
    let n = name.len();
    if n == 2 && name[0] == 0x2e && name[1] == 0x2e {
        assert(name@ == seq![0x2eu8, 0x2eu8]);
        return name.clone();
    }
    let mut i: usize = n;
    while i > 0 && name[i - 1] != 0x2e
        invariant
            i <= n == name@.len(),
            forall|j: int| i <= j < n ==> name@[j] != 0x2e,
        decreases i,
    {
        i = i - 1;
    }
    proof {
        lemma_last_dot(name@, i as int);
        if i > 0 {
            assert(name@.subrange(0, i as int).last() == name@[i - 1]);
            assert(name@.subrange(0, i as int).drop_last() == name@.subrange(0, i - 1));
        } else {
            assert(name@.subrange(0, 0).len() == 0);
        }
    }
    if i <= 1 {
        return name.clone();
    }
    let mut res: Vec<u8> = Vec::new();
    let mut k: usize = 0;
    while k < i - 1
        invariant
            1 < i <= n == name@.len(),
            k <= i - 1,
            res@ == name@.subrange(0, k as int),
        decreases i - 1 - k,
    {
        res.push(name[k]);
        assert(name@.subrange(0, k + 1) == name@.subrange(0, k as int).push(name@[k as int]));
        k = k + 1;
    }
    res
}

/// The files among the entries, in listing order.
pub open spec fn files_of(entries: Seq<DirEntry>) -> Seq<DirEntry> {
    entries.filter(|e: DirEntry| e.is_file)
}

/// The error when the release directory holds more than one file.
pub open spec fn several_files_text() -> Seq<char> {
    "Expected exactly one release file in RELEASE_PATH"@
}

pub struct FilesService;

impl FilesService {
    /// The release version, from the listing of the release directory: the
    /// stem of its only file. No file is `NotFound`; several files are a
    /// `Custom` error; a stem that is empty or not UTF-8 is `BadRequest`.
    pub fn get_version(entries: &Vec<DirEntry>) -> (res: Result<String, AppError>)
        ensures
            files_of(entries@).len() == 0 ==> (res matches Err(e) && e is NotFound),
            files_of(entries@).len() > 1 ==> (res matches Err(AppError::Custom(m)) && m@ == several_files_text()),
            files_of(entries@).len() == 1 ==> ({
                let stem = file_stem(files_of(entries@)[0].name@);
                if vstd::utf8::valid_utf8(stem) && stem.len() > 0 {
                    res matches Ok(v) && v@ == vstd::utf8::decode_utf8(stem)
                } else {
                    res matches Err(e) && e is BadRequest
                }
            }),
    {
        let ghost pred = |e: DirEntry| e.is_file;
        let mut found: Option<usize> = None;
        let mut i: usize = 0;
        proof {
            assert(entries@.take(0).filter(pred) =~= Seq::<DirEntry>::empty());
        }
        while i < entries.len()
            invariant
                pred == (|e: DirEntry| e.is_file),
                i <= entries@.len(),
                found is None ==> entries@.take(i as int).filter(pred).len() == 0,
                found matches Some(f) ==> f < i && entries@[f as int].is_file && entries@.take(i as int).filter(pred)
                    == seq![entries@[f as int]],
            decreases entries@.len() - i,
        {
            proof {
                assert(entries@.take(i + 1) == entries@.take(i as int).push(entries@[i as int]));
                entries@.take(i as int).lemma_filter_push(entries@[i as int], pred);
            }
            if entries[i].is_file {
                if found.is_some() {
                    proof {
                        let rest = entries@.skip(i + 1);
                        assert(entries@ == entries@.take(i + 1) + rest);
                        Seq::filter_distributes_over_add(entries@.take(i + 1), rest, pred);
                    }
                    return Err(AppError::Custom(String::from_str("Expected exactly one release file in RELEASE_PATH")));
                }
                found = Some(i);
            }
            i = i + 1;
        }
        assert(entries@.take(entries@.len() as int) == entries@);
        match found {
            None => Err(AppError::NotFound),
            Some(f) => {
                let stem = stem_of(&entries[f].name);
                match utf8_to_string(stem.as_slice()) {
                    None => Err(AppError::BadRequest),
                    Some(s) => {
                        if stem.len() == 0 {
                            return Err(AppError::BadRequest);
                        }
                        Ok(s)
                    },
                }
            },
        }
    }
}

} // verus!
