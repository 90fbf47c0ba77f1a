//! Where the Dolphin pipe lives.

use vstd::prelude::*;

use crate::text::{chars_of, opt_chars};

verus! {

/// Why no pipe path can be formed.
#[derive(Clone, Copy, Debug, PartialEq, Eq)]
pub enum PipePathError {
    /// The pipe name holds a `/`.
    NameHasSlash,
    /// The pipe name holds a NUL character (a zero byte in UTF-8).
    NameHasNul,
    /// No home directory is known.
    HomeUnset,
}

/// `base` joined with the relative path component `comp`, as
/// `PathBuf::push` does on Unix: a `/` goes between them unless `base` is
/// empty or already ends in one.
pub open spec fn path_join(base: Seq<char>, comp: Seq<char>) -> Seq<char> {
    if base.len() == 0 {
        comp
    } else if base.last() == '/' {
        base + comp
    } else {
        base + seq!['/'] + comp
    }
}

/// `home/Library/Application Support/Dolphin/Pipes/name`.
pub open spec fn pipe_path_of(home: Seq<char>, name: Seq<char>) -> Seq<char> {
    path_join(
        path_join(
            path_join(path_join(path_join(home, "Library"@), "Application Support"@), "Dolphin"@),
            "Pipes"@,
        ),
        name,
    )
}

/// What `pipe_path` gives: the name is checked for `/`, then for NUL,
/// before the home directory is needed.
pub open spec fn pipe_path_spec(home: Option<Seq<char>>, name: Seq<char>) -> Result<Seq<char>, PipePathError> {
    if name.contains('/') {
        Err(PipePathError::NameHasSlash)
    } else if name.contains('\0') {
        Err(PipePathError::NameHasNul)
    } else {
        match home {
            None => Err(PipePathError::HomeUnset),
            Some(h) => Ok(pipe_path_of(h, name)),
        }
    }
}

fn contains_char(cs: &Vec<char>, c: char) -> (r: bool)
    ensures
        r == cs@.contains(c),
{
    let n = cs.len();
    for i in 0..n
        invariant
            n == cs@.len(),
            forall|j: int| 0 <= j < i ==> cs@[j] != c,
    {
        if cs[i] == c {
            assert(cs@[i as int] == c);
            return true;
        }
    }
    false
}

/// The path of the Dolphin pipe named `pipe_name` under the home directory
/// `home` (`None` when it is not known).
pub fn pipe_path(home: Option<&str>, pipe_name: &str) -> (res: Result<String, PipePathError>)
    ensures
        pipe_path_spec(opt_chars(home), pipe_name@) == match res {
            Ok(p) => Ok(p@),
            Err(e) => Err(e),
        },
{
    let name_chars = chars_of(pipe_name);
    if contains_char(&name_chars, '/') {
        return Err(PipePathError::NameHasSlash);
    }
    if contains_char(&name_chars, '\0') {
        return Err(PipePathError::NameHasNul);
    }
    let h = match home {
        None => {
            return Err(PipePathError::HomeUnset);
        },
        Some(h) => h,
    };
    let hs = chars_of(h);
    let mut p = String::from_str(h);
    if hs.len() > 0 && hs[hs.len() - 1] != '/' {
        p.append("/");
    }
    p.append("Library/Application Support/Dolphin/Pipes/");
    p.append(pipe_name);
    proof {
        reveal_strlit("/");
        reveal_strlit("Library");
        reveal_strlit("Application Support");
        reveal_strlit("Dolphin");
        reveal_strlit("Pipes");
        reveal_strlit("Library/Application Support/Dolphin/Pipes/");
        let a = path_join(h@, "Library"@);
        assert(a.len() > 0 && a.last() == 'y');
        let b = path_join(a, "Application Support"@);
        assert(b.len() > 0 && b.last() == 't');
        let c = path_join(b, "Dolphin"@);
        assert(c.len() > 0 && c.last() == 'n');
        let d = path_join(c, "Pipes"@);
        assert(d.len() > 0 && d.last() == 's');
        assert(p@ =~= pipe_path_of(h@, pipe_name@));
    }
    Ok(p)
}


/// Delay, in milliseconds, before opening the pipe is tried again.
pub const OPEN_RETRY_DELAY_MS: u64 = 250;

/// Whether a failed non-blocking open of the pipe for writing is tried
/// again: only when it failed with `ENXIO` (the platform's value is
/// `enxio`), which a FIFO gives while no reader has it open; any other
/// failure ends the wait.
pub fn retry_pipe_open(raw_os_error: Option<i32>, enxio: i32) -> (retry: bool)
    ensures
        retry == (raw_os_error == Some(enxio)),
{
    match raw_os_error {
        Some(code) => code == enxio,
        None => false,
    }
}

} // verus!
