//! The command-line facing options: the analyzed directory and the export
//! format of the diagram file.  Parsing the process arguments happens outside
//! the library; the format name's recognition is specified here.

use vstd::prelude::*;
use vstd::string::StrSliceExecFns;

verus! {

/// Welcome! Below you see all configuration options you can use.
#[derive(Debug)]
pub struct Arguments {
    /// the directory of the workspace to analyze
    pub directory: String,
    /// the type of the output file to store in the working directory
    pub output_format: FileExportOptions,
}

/// The supported diagram export formats.
#[derive(Debug, Clone, Copy, PartialEq, Eq, Structural)]
pub enum FileExportOptions {
    SVG,
    MMD,
}

/// An ASCII capital letter folded to its small form; any other character is
/// itself.
pub open spec fn spec_ascii_lower(c: char) -> char {
    if c == 'A' {
        'a'
    } else if c == 'B' {
        'b'
    } else if c == 'C' {
        'c'
    } else if c == 'D' {
        'd'
    } else if c == 'E' {
        'e'
    } else if c == 'F' {
        'f'
    } else if c == 'G' {
        'g'
    } else if c == 'H' {
        'h'
    } else if c == 'I' {
        'i'
    } else if c == 'J' {
        'j'
    } else if c == 'K' {
        'k'
    } else if c == 'L' {
        'l'
    } else if c == 'M' {
        'm'
    } else if c == 'N' {
        'n'
    } else if c == 'O' {
        'o'
    } else if c == 'P' {
        'p'
    } else if c == 'Q' {
        'q'
    } else if c == 'R' {
        'r'
    } else if c == 'S' {
        's'
    } else if c == 'T' {
        't'
    } else if c == 'U' {
        'u'
    } else if c == 'V' {
        'v'
    } else if c == 'W' {
        'w'
    } else if c == 'X' {
        'x'
    } else if c == 'Y' {
        'y'
    } else if c == 'Z' {
        'z'
    } else {
        c
    }
}

fn ascii_lower(c: char) -> (r: char)
    ensures
        r == spec_ascii_lower(c),
{
    if c == 'A' {
        'a'
    } else if c == 'B' {
        'b'
    } else if c == 'C' {
        'c'
    } else if c == 'D' {
        'd'
    } else if c == 'E' {
        'e'
    } else if c == 'F' {
        'f'
    } else if c == 'G' {
        'g'
    } else if c == 'H' {
        'h'
    } else if c == 'I' {
        'i'
    } else if c == 'J' {
        'j'
    } else if c == 'K' {
        'k'
    } else if c == 'L' {
        'l'
    } else if c == 'M' {
        'm'
    } else if c == 'N' {
        'n'
    } else if c == 'O' {
        'o'
    } else if c == 'P' {
        'p'
    } else if c == 'Q' {
        'q'
    } else if c == 'R' {
        'r'
    } else if c == 'S' {
        's'
    } else if c == 'T' {
        't'
    } else if c == 'U' {
        'u'
    } else if c == 'V' {
        'v'
    } else if c == 'W' {
        'w'
    } else if c == 'X' {
        'x'
    } else if c == 'Y' {
        'y'
    } else if c == 'Z' {
        'z'
    } else {
        c
    }
}

/// A text with every ASCII capital letter folded to its small form.
pub open spec fn lowered(s: Seq<char>) -> Seq<char> {
    s.map_values(|c: char| spec_ascii_lower(c))
}

/// Whether `s` equals `pat` after ASCII case folding of `s`.
fn matches_folded(s: &str, pat: &str) -> (r: bool)
    ensures
        r == (lowered(s@) == pat@),
{
    let n = s.unicode_len();
    if n != pat.unicode_len() {
        proof {
            assert(lowered(s@).len() == s@.len());
        }
        return false;
    }
    for i in 0..n
        invariant
            n == s@.len(),
            n == pat@.len(),
            forall|t: int| 0 <= t < i ==> lowered(s@)[t] == pat@[t],
    {
        let c = ascii_lower(s.get_char(i));
        let p = pat.get_char(i);
        if c != p {
            proof {
                assert(lowered(s@)[i as int] != pat@[i as int]);
            }
            return false;
        }
        proof {
            assert(lowered(s@)[i as int] == pat@[i as int]);
        }
    }
    proof {
        assert(lowered(s@) =~= pat@);
    }
    true
}

/// The recognized spelling of each export format, case-insensitively; any
/// other text is rejected with a message naming it.
pub open spec fn parse_export_spec(s: Seq<char>) -> Result<FileExportOptions, Seq<char>> {
    if lowered(s) == "svg"@ {
        Ok(FileExportOptions::SVG)
    } else if lowered(s) == "mmd"@ {
        Ok(FileExportOptions::MMD)
    } else {
        Err("Invalid output format: "@ + s + ". Allowed: svg, mmd"@)
    }
}

/// Recognizes an export format name, ignoring ASCII case.
pub fn parse_file_export_options(s: &str) -> (r: Result<FileExportOptions, String>)
    ensures
        match r {
            Ok(v) => parse_export_spec(s@) == Ok::<FileExportOptions, Seq<char>>(v),
            Err(e) => parse_export_spec(s@) == Err::<FileExportOptions, Seq<char>>(e@),
        },
{
    if matches_folded(s, "svg") {
        Ok(FileExportOptions::SVG)
    } else if matches_folded(s, "mmd") {
        Ok(FileExportOptions::MMD)
    } else {
        let mut msg: String = String::new();
        msg.append("Invalid output format: ");
        msg.append(s);
        msg.append(". Allowed: svg, mmd");
        proof {
            assert(msg@ =~= "Invalid output format: "@ + s@ + ". Allowed: svg, mmd"@);
        }
        Err(msg)
    }
}

impl core::str::FromStr for FileExportOptions {
    type Err = String;

    fn from_str(s: &str) -> Result<Self, Self::Err> {
        parse_file_export_options(s)
    }
}

} // verus!
