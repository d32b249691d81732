//! Environment setup checking: which external tools the surrounding tool
//! relies on, and the verdict over a set of lookup results.  Probing the
//! PATH is outside work; the caller probes and hands the outcomes in.

use vstd::prelude::*;

use crate::elfdyn::string_views;

verus! {

/// One external tool the tool set relies on, with the reason it is needed.
pub struct ToolRequirement {
    pub name: String,
    pub reason: String,
}

/// The external tools relied on.
pub fn required_tools() -> (r: Vec<ToolRequirement>)
    ensures
        r@.len() == 1,
        r@[0].name@ == "qemu-system-x86_64"@,
        r@[0].reason@ == "This is used to run Docker within a Windows Userspace app"@,
{
    let mut out: Vec<ToolRequirement> = Vec::new();
    out.push(
        ToolRequirement {
            name: String::from_str("qemu-system-x86_64"),
            reason: String::from_str("This is used to run Docker within a Windows Userspace app"),
        },
    );
    out
}

/// The outcome of looking one tool up on the PATH.
pub struct ToolProbe {
    pub name: String,
    pub found: bool,
}

/// The names of the probes that found nothing, in probe order.
pub open spec fn missing_names_spec(probes: Seq<ToolProbe>) -> Seq<Seq<char>>
    decreases probes.len(),
{
    if probes.len() == 0 {
        Seq::empty()
    } else {
        missing_names_spec(probes.drop_last()) + if !probes.last().found {
            seq![probes.last().name@]
        } else {
            Seq::empty()
        }
    }
}

/// The missing-tools message: the fixed complaint followed by the missing
/// names, quoted, comma-separated and bracketed.
pub open spec fn missing_msg_spec(probes: Seq<ToolProbe>) -> Seq<char> {
    "The following binaries are missing, please install them and their containing folder to your PATH variable. missing_bins = ["@
        + joined_quoted_spec(missing_names_spec(probes)) + "]"@
}

/// Names quoted and joined with `, `.
pub open spec fn joined_quoted_spec(names: Seq<Seq<char>>) -> Seq<char>
    decreases names.len(),
{
    if names.len() == 0 {
        Seq::empty()
    } else if names.len() == 1 {
        "\""@ + names[0] + "\""@
    } else {
        joined_quoted_spec(names.drop_last()) + ", \""@ + names.last() + "\""@
    }
}

/// Decide the setup verdict over the probe outcomes: success exactly when
/// every required tool was found, else the message naming every missing
/// one.
pub fn check_setup(probes: &Vec<ToolProbe>) -> (r: Result<(), String>)
    ensures
        match r {
            Ok(_) => forall|i: int| 0 <= i < probes@.len() ==> (#[trigger] probes@[i]).found,
            Err(m) => (exists|i: int| 0 <= i < probes@.len() && !(#[trigger] probes@[i]).found)
                && m@ == missing_msg_spec(probes@),
        },
{
    let n = probes.len();
    let mut missing: Vec<String> = Vec::new();
    let mut i: usize = 0;
    while i < n
        invariant
            n == probes@.len(),
            i <= n,
            string_views(missing@) == missing_names_spec(probes@.subrange(0, i as int)),
            missing@.len() == 0 <==> forall|j: int|
                0 <= j < i ==> (#[trigger] probes@[j]).found,
        decreases n - i,
    {
        let ghost premissing = missing@;
        if !probes[i].found {
            missing.push(probes[i].name.clone());
        }
        proof {
            assert(probes@.subrange(0, i + 1).drop_last() =~= probes@.subrange(0, i as int));
            assert(probes@.subrange(0, i + 1).last() == probes@[i as int]);
            if !probes@[i as int].found {
                assert(string_views(missing@) =~= string_views(premissing) + seq![
                    probes@[i as int].name@,
                ]);
            } else {
                assert(string_views(missing@) =~= string_views(premissing));
                assert(missing_names_spec(probes@.subrange(0, i + 1)) =~= missing_names_spec(
                    probes@.subrange(0, i as int),
                ));
            }
        }
        i = i + 1;
    }
    assert(probes@.subrange(0, n as int) =~= probes@);
    if missing.len() == 0 {
        return Ok(());
    }
    assert(exists|i: int| 0 <= i < probes@.len() && !(#[trigger] probes@[i]).found) by {
        if forall|j: int| 0 <= j < probes@.len() ==> (#[trigger] probes@[j]).found {
            assert(missing@.len() == 0);
        }
    }
    let mut m = String::from_str(
        "The following binaries are missing, please install them and their containing folder to your PATH variable. missing_bins = [",
    );
    let k = missing.len();
    let mut j: usize = 0;
    let ghost names = string_views(missing@);
    while j < k
        invariant
            k == missing@.len(),
            k >= 1,
            j <= k,
            names == string_views(missing@),
            m@ == "The following binaries are missing, please install them and their containing folder to your PATH variable. missing_bins = ["@
                + joined_quoted_spec(names.subrange(0, j as int)),
        decreases k - j,
    {
        let ghost prem = m@;
        if j == 0 {
            m.append("\"");
        } else {
            m.append(", \"");
        }
        m.append(missing[j].as_str());
        m.append("\"");
        proof {
            assert(names.subrange(0, j + 1).drop_last() =~= names.subrange(0, j as int));
            assert(names.subrange(0, j + 1).last() == names[j as int]);
            if j == 0 {
                assert(joined_quoted_spec(names.subrange(0, 1)) =~= "\""@ + names[0] + "\""@);
            }
            assert(m@ =~= "The following binaries are missing, please install them and their containing folder to your PATH variable. missing_bins = ["@
                + joined_quoted_spec(names.subrange(0, j + 1)));
        }
        j = j + 1;
    }
    m.append("]");
    proof {
        assert(names.subrange(0, k as int) =~= names);
        assert(m@ =~= missing_msg_spec(probes@));
    }
    Err(m)
}

/// An error annotated with the source location it was noticed at.
pub struct WithLocationErr {
    pub file: String,
    pub line: u32,
    pub source: String,
}

impl WithLocationErr {
    /// The rendered message: the source error, then the location.
    pub fn describe(&self) -> (r: String)
        ensures
            r@ == self.source@ + " at "@ + self.file@ + ":"@ + crate::render::dec_string_spec(
                self.line as u64,
            ),
    {
        let mut out = self.source.clone();
        out.append(" at ");
        out.append(self.file.as_str());
        out.append(":");
        let line = crate::render::u64_to_dec(self.line as u64);
        out.append(line.as_str());
        out
    }
}

} // verus!
