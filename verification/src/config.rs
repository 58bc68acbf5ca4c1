//! The configuration of one run, immutable once built, and the defaults
//! the command line falls back to: target extension, transcoder options,
//! convertible extensions and cover-name suffixes.

use vstd::prelude::*;

verus! {

/// The default target extension.
pub open spec fn default_extension_spec() -> Seq<char> {
    "opus"@
}

/// The default option string handed to the transcoder.
pub open spec fn default_options_spec() -> Seq<char> {
    "-c:a libopus -b:a 192K -vbr on -cutoff 0 -c:v copy"@
}

/// The default convertible-extension list.
pub open spec fn default_file_types_spec() -> Seq<Seq<char>> {
    seq!["mp3"@, "aac"@, "aif"@, "flac"@, "ogg"@, "wav"@]
}

/// The default cover-suffix list.
pub open spec fn default_cover_suffixes_spec() -> Seq<Seq<char>> {
    seq!["cover.jpg"@, "cover.png"@, "albumartsmall.jpg"@, "albumartwork.png"@]
}

pub fn default_extension() -> (r: String)
    ensures
        r@ == default_extension_spec(),
{
    String::from_str("opus")
}

pub fn default_options() -> (r: String)
    ensures
        r@ == default_options_spec(),
{
    String::from_str("-c:a libopus -b:a 192K -vbr on -cutoff 0 -c:v copy")
}

pub fn default_file_types() -> (r: Vec<String>)
    ensures
        r.deep_view() == default_file_types_spec(),
{
    let mut v: Vec<String> = Vec::new();
    v.push(String::from_str("mp3"));
    v.push(String::from_str("aac"));
    v.push(String::from_str("aif"));
    v.push(String::from_str("flac"));
    v.push(String::from_str("ogg"));
    v.push(String::from_str("wav"));
    proof {
        assert(v.deep_view() =~= default_file_types_spec());
    }
    v
}

pub fn default_cover_suffixes() -> (r: Vec<String>)
    ensures
        r.deep_view() == default_cover_suffixes_spec(),
{
    let mut v: Vec<String> = Vec::new();
    v.push(String::from_str("cover.jpg"));
    v.push(String::from_str("cover.png"));
    v.push(String::from_str("albumartsmall.jpg"));
    v.push(String::from_str("albumartwork.png"));
    proof {
        assert(v.deep_view() =~= default_cover_suffixes_spec());
    }
    v
}

/// A string cut at every occurrence of `sep`, empty pieces kept: one
/// piece per stretch between separators, so an empty string yields one
/// empty piece.
pub open spec fn split_pieces(s: Seq<char>, sep: char) -> Seq<Seq<char>>
    decreases s.len(),
{
    if s.len() == 0 {
        seq![Seq::<char>::empty()]
    } else if s.last() == sep {
        split_pieces(s.drop_last(), sep).push(Seq::empty())
    } else {
        let t = split_pieces(s.drop_last(), sep);
        t.update(t.len() - 1, t.last().push(s.last()))
    }
}

/// Cuts `s` at every occurrence of `sep`, keeping empty pieces; used for
/// the comma-separated extension and cover lists of the command line.
pub fn split_on_char(s: &String, sep: char) -> (tokens: Vec<String>)
    ensures
        tokens.deep_view() == split_pieces(s@, sep),
{
    let sl = s.as_str();
    let len = sl.unicode_len();
    let mut tokens: Vec<String> = Vec::new();
    let mut start: usize = 0;
    let mut i: usize = 0;
    proof {
        assert(s@.take(0) =~= Seq::<char>::empty());
        assert(tokens.deep_view().push(s@.subrange(0, 0)) =~= split_pieces(s@.take(0), sep));
    }
    while i < len
        invariant
            0 <= start <= i <= len,
            len == s@.len(),
            sl@ == s@,
            tokens.deep_view().push(s@.subrange(start as int, i as int)) == split_pieces(
                s@.take(i as int),
                sep,
            ),
        decreases len - i,
    {
        let ghost pre = tokens.deep_view();
        proof {
            assert(s@.take(i + 1).drop_last() =~= s@.take(i as int));
        }
        let c = sl.get_char(i);
        if c == sep {
            let ghost st = start as int;
            let tok = sl.substring_char(start, i);
            tokens.push(String::from_str(tok));
            start = i + 1;
            proof {
                assert(tokens.deep_view() =~= pre.push(s@.subrange(st, i as int)));
                assert(s@.subrange(start as int, i + 1) =~= Seq::<char>::empty());
                assert(tokens.deep_view().push(s@.subrange(start as int, i + 1)) =~= split_pieces(
                    s@.take(i + 1),
                    sep,
                ));
            }
        } else {
            proof {
                let t = split_pieces(s@.take(i as int), sep);
                assert(t == pre.push(s@.subrange(start as int, i as int)));
                assert(t.last() == s@.subrange(start as int, i as int));
                assert(t.last().push(s@[i as int]) =~= s@.subrange(start as int, i + 1));
                assert(t.update(t.len() - 1, t.last().push(s@[i as int])) =~= pre.push(
                    s@.subrange(start as int, i + 1),
                ));
            }
        }
        i = i + 1;
    }
    let tok = sl.substring_char(start, len);
    tokens.push(String::from_str(tok));
    proof {
        assert(s@.take(len as int) =~= s@);
        assert(tokens.deep_view() =~= split_pieces(s@, sep));
    }
    tokens
}

/// Cuts the option string at every space: the token list the transcoder
/// is invoked with, empty tokens kept.
pub fn split_options(s: &String) -> (tokens: Vec<String>)
    ensures
        tokens.deep_view() == split_pieces(s@, ' '),
{
    split_on_char(s, ' ')
}

/// Everything one invocation runs under. No component mutates it.
pub struct RunConfig {
    /// Root of the tree being mirrored.
    pub source_root: String,
    /// Root of the mirror.
    pub dest_root: String,
    /// Extension every conversion is rewritten to.
    pub target_extension: String,
    /// Overwrite an existing destination file instead of skipping the job.
    pub overwrite: bool,
    /// Leave destination-only files untouched.
    pub preserve: bool,
    /// Mirror cover images as well.
    pub copy_covers: bool,
    /// Option string handed to the transcoder.
    pub options: String,
    /// Extensions (lowercase match) that make an entry convertible.
    pub file_types: Vec<String>,
    /// File-name suffixes (lowercase match) that make an entry a cover.
    pub cover_suffixes: Vec<String>,
}

/// Assembles a run's configuration, falling back to the defaults where
/// the command line gave nothing: absent extension and options take the
/// default strings, and empty lists take the default lists.
pub fn build_config(
    source_root: String,
    dest_root: String,
    extension: Option<String>,
    overwrite: bool,
    preserve: bool,
    skip_covers: bool,
    options: Option<String>,
    file_types: Vec<String>,
    cover_suffixes: Vec<String>,
) -> (c: RunConfig)
    ensures
        c.source_root@ == source_root@,
        c.dest_root@ == dest_root@,
        c.target_extension@ == match extension {
            Some(e) => e@,
            None => default_extension_spec(),
        },
        c.overwrite == overwrite,
        c.preserve == preserve,
        c.copy_covers == !skip_covers,
        c.options@ == match options {
            Some(o) => o@,
            None => default_options_spec(),
        },
        c.file_types.deep_view() == if file_types@.len() == 0 {
            default_file_types_spec()
        } else {
            file_types.deep_view()
        },
        c.cover_suffixes.deep_view() == if cover_suffixes@.len() == 0 {
            default_cover_suffixes_spec()
        } else {
            cover_suffixes.deep_view()
        },
{
    let target_extension = match extension {
        Some(e) => e,
        None => default_extension(),
    };
    let options = match options {
        Some(o) => o,
        None => default_options(),
    };
    let file_types = if file_types.len() == 0 {
        default_file_types()
    } else {
        file_types
    };
    let cover_suffixes = if cover_suffixes.len() == 0 {
        default_cover_suffixes()
    } else {
        cover_suffixes
    };
    RunConfig {
        source_root,
        dest_root,
        target_extension,
        overwrite,
        preserve,
        copy_covers: !skip_covers,
        options,
        file_types,
        cover_suffixes,
    }
}

} // verus!
