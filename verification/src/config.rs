//! Where the site generator reads and writes, relative to its working
//! directory.

use vstd::prelude::*;

verus! {

/// The directories of a site: the working directory, the chart and list
/// sources under `data/shb` and `data/lst`, the serialized songs under
/// `data/cbor`, and the generated pages under `song` and `list`.
#[derive(Debug)]
pub struct Config {
    pub work_dir: String,
    pub shb_src_dir: String,
    pub lst_src_dir: String,
    pub list_out_dir: String,
    pub song_out_dir: String,
    pub bin_out_dir: String,
}

/// A relative path appended to a directory path, with a `/` between them
/// unless the directory path is empty or already ends with one (as
/// `PathBuf::push` does on Unix).
pub open spec fn join_path(base: Seq<char>, rel: Seq<char>) -> Seq<char> {
    if base.len() == 0 || base.last() == '/' {
        base + rel
    } else {
        base + seq!['/'] + rel
    }
}

/// A joined path starts with the directory path and ends with the relative
/// path, with at most one character between them, which is a `/`; there is
/// a `/` just before the relative path whenever the directory path is not
/// empty.
pub proof fn lemma_join_path(base: Seq<char>, rel: Seq<char>)
    ensures
        ({
            let j = join_path(base, rel);
            &&& j.subrange(0, base.len() as int) == base
            &&& j.subrange(j.len() - rel.len(), j.len() as int) == rel
            &&& base.len() + rel.len() <= j.len() <= base.len() + rel.len() + 1
            &&& j.len() == base.len() + rel.len() + 1 ==> j[base.len() as int] == '/'
            &&& base.len() > 0 ==> j[j.len() - rel.len() - 1] == '/'
        }),
{
    let j = join_path(base, rel);
    assert(j.subrange(0, base.len() as int) =~= base);
    assert(j.subrange(j.len() - rel.len(), j.len() as int) =~= rel);
}

/// Appends `rel` to the path `base`.
pub fn join(base: &str, rel: &str) -> (res: String)
    ensures
        res@ == join_path(base@, rel@),
{
    let mut out = base.to_owned();
    let len = base.unicode_len();
    if len > 0 && base.get_char(len - 1) != '/' {
        out.append("/");
        proof {
            reveal_strlit("/");
        }
    }
    out.append(rel);
    out
}

impl Config {
    /// The configuration for the command line `args`: the working
    /// directory is the first argument after the program's name, and
    /// `work_dir_is_dir` tells whether it names a directory.
    pub fn new(args: &Vec<String>, work_dir_is_dir: bool) -> (res: Result<Config, &'static str>)
        ensures
            args@.len() < 2 ==> (res matches Err(e) && e@ == "No working directory given"@),
            args@.len() >= 2 && !work_dir_is_dir ==> (res matches Err(e) && e@ == "Not a directory"@),
            args@.len() >= 2 && work_dir_is_dir ==> (res matches Ok(c) && {
                let w = args@[1]@;
                &&& c.work_dir@ == w
                &&& c.shb_src_dir@ == join_path(w, "data/shb"@)
                &&& c.lst_src_dir@ == join_path(w, "data/lst"@)
                &&& c.bin_out_dir@ == join_path(w, "data/cbor"@)
                &&& c.song_out_dir@ == join_path(w, "song"@)
                &&& c.list_out_dir@ == join_path(w, "list"@)
            }),
    {
        if args.len() < 2 {
            return Err("No working directory given");
        }
        if !work_dir_is_dir {
            return Err("Not a directory");
        }
        let w = args[1].as_str();
        Ok(
            Config {
                work_dir: w.to_owned(),
                shb_src_dir: join(w, "data/shb"),
                lst_src_dir: join(w, "data/lst"),
                list_out_dir: join(w, "list"),
                song_out_dir: join(w, "song"),
                bin_out_dir: join(w, "data/cbor"),
            },
        )
    }
}

} // verus!
