//! The command line: `read <src...> write <dest...>`.
use crate::common::DitError;
use crate::common::ReadWritePaths;
use crate::common::views;
use vstd::prelude::*;

verus! {

/// Which list the words of the command line are going to.
pub enum CliTarget {
    Neither,
    Read,
    Write,
}

/// A path argument with one trailing `/` removed, unless it is `/` itself.
pub open spec fn strip_trailing_slash(s: Seq<char>) -> Seq<char> {
    if s.len() > 1 && s.last() == '/' {
        s.drop_last()
    } else {
        s
    }
}

/// The state after reading the first `n` arguments: where the next path
/// goes, and the read and write paths collected so far.
pub open spec fn cli_state(args: Seq<Seq<char>>, n: int) -> (CliTarget, Seq<Seq<char>>, Seq<Seq<char>>)
    decreases n,
{
    if n <= 0 {
        (CliTarget::Neither, Seq::empty(), Seq::empty())
    } else {
        let (t, r, w) = cli_state(args, n - 1);
        let a = args[n - 1];
        if a == "read"@ {
            (CliTarget::Read, r, w)
        } else if a == "write"@ {
            (CliTarget::Write, r, w)
        } else {
            match t {
                CliTarget::Neither => (t, r, w),
                CliTarget::Read => (t, r.push(strip_trailing_slash(a)), w),
                CliTarget::Write => (t, r, w.push(strip_trailing_slash(a))),
            }
        }
    }
}

fn strip_slash(s: &String) -> (r: String)
    ensures
        r@ == strip_trailing_slash(s@),
{
    let n = s.as_str().unicode_len();
    if n > 1 && s.as_str().get_char(n - 1) == '/' {
        let r = s.as_str().substring_char(0, n - 1).to_string();
        assert(r@ =~= s@.drop_last());
        r
    } else {
        s.clone()
    }
}

/// Splits the arguments (without the program name) into read and write
/// paths: the word `read` sends the following paths to the read list, the
/// word `write` to the write list. Paths lose one trailing `/`, except `/`
/// itself, which is kept so that it can be refused later. Paths are not
/// checked otherwise.
pub fn get_cli_read_write_paths(args: &[String]) -> (r: Result<ReadWritePaths, DitError>)
    ensures
        ({
            let (t, reads, writes) = cli_state(views(args@), args@.len() as int);
            if reads.len() == 0 {
                r is Err && r->Err_0.error@ == "must have at least one read path"@
            } else if writes.len() == 0 {
                r is Err && r->Err_0.error@ == "must have at least one write path"@
            } else {
                r is Ok && views(r->Ok_0.read_paths@) == reads && views(r->Ok_0.write_paths@) == writes
            }
        }),
{
    let mut read_paths: Vec<String> = Vec::new();
    let mut write_paths: Vec<String> = Vec::new();
    let mut target = CliTarget::Neither;
    let read_word = "read".to_string();
    let write_word = "write".to_string();
    let mut i: usize = 0;
    while i < args.len()
        invariant
            i <= args@.len(),
            read_word@ == "read"@,
            write_word@ == "write"@,
            ({
                let (t, reads, writes) = cli_state(views(args@), i as int);
                &&& t == target
                &&& views(read_paths@) == reads
                &&& views(write_paths@) == writes
            }),
        decreases args.len() - i,
    {
        let a = &args[i];
        proof {
            assert(views(args@)[i as int] == a@);
        }
        if *a == read_word {
            target = CliTarget::Read;
        } else if *a == write_word {
            target = CliTarget::Write;
        } else {
            match target {
                CliTarget::Neither => {},
                CliTarget::Read => {
                    let p = strip_slash(a);
                    let ghost before = read_paths@;
                    read_paths.push(p);
                    assert(views(read_paths@) =~= views(before).push(p@));
                },
                CliTarget::Write => {
                    let p = strip_slash(a);
                    let ghost before = write_paths@;
                    write_paths.push(p);
                    assert(views(write_paths@) =~= views(before).push(p@));
                },
            }
        }
        i = i + 1;
    }
    if read_paths.len() < 1 {
        return crate::common::dit_error("must have at least one read path");
    }
    if write_paths.len() < 1 {
        return crate::common::dit_error("must have at least one write path");
    }
    Ok(ReadWritePaths { read_paths, write_paths })
}

} // verus!
