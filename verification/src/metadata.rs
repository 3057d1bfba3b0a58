//! The identity of a compiler build: the version, the release channel, and the git
//! commit it was built from.
//!
//! A binary reports its version through [`version_string`], and a cache keys its
//! files on [`compiler_tag`], so that all of them agree on what "this compiler" is.

use vstd::prelude::*;
use crate::offsets::{byte_off, byte_off_grows, Chars};
use crate::text::{cat2, cat5, str_eq, string_of};

verus! {

/// The commit recorded for a build made outside a git checkout.
pub const UNKNOWN_COMMIT: &'static str = "unknown";

/// A release channel.
#[derive(Debug, Clone, PartialEq, Eq)]
pub enum BuildChannel {
    Stable,
    Beta,
    Nightly,
    Custom(String),
}

/// The model of [`BuildChannel`].
pub ghost enum BuildChannelV {
    Stable,
    Beta,
    Nightly,
    Custom(Seq<char>),
}

impl View for BuildChannel {
    type V = BuildChannelV;

    open spec fn view(&self) -> BuildChannelV {
        match *self {
            BuildChannel::Stable => BuildChannelV::Stable,
            BuildChannel::Beta => BuildChannelV::Beta,
            BuildChannel::Nightly => BuildChannelV::Nightly,
            BuildChannel::Custom(v) => BuildChannelV::Custom(v@),
        }
    }
}

/// The channel a name stands for.
pub open spec fn channel_named(value: Seq<char>) -> BuildChannelV {
    if value == "stable"@ {
        BuildChannelV::Stable
    } else if value == "beta"@ {
        BuildChannelV::Beta
    } else if value == "nightly"@ {
        BuildChannelV::Nightly
    } else {
        BuildChannelV::Custom(value)
    }
}

/// The name of a channel.
pub open spec fn channel_name(c: BuildChannelV) -> Seq<char> {
    match c {
        BuildChannelV::Stable => "stable"@,
        BuildChannelV::Beta => "beta"@,
        BuildChannelV::Nightly => "nightly"@,
        BuildChannelV::Custom(v) => v,
    }
}

/// The channel a build was made for; an unset or empty value stands for nightly.
pub open spec fn channel_of(value: Option<Seq<char>>) -> BuildChannelV {
    match value {
        Some(v) => if v.len() > 0 {
            channel_named(v)
        } else {
            BuildChannelV::Nightly
        },
        None => BuildChannelV::Nightly,
    }
}

/// The text of an optional borrowed string.
pub open spec fn opt_view(o: Option<&str>) -> Option<Seq<char>> {
    match o {
        Some(s) => Some(s@),
        None => None,
    }
}

/// A channel's name names that channel.
pub proof fn channel_name_round_trip(value: Seq<char>)
    ensures
        channel_name(channel_named(value)) == value,
{
}

impl BuildChannel {
    /// The channel `value` names.
    pub fn from(value: &str) -> (r: BuildChannel)
        ensures
            r@ == channel_named(value@),
    {
        if str_eq(value, "stable") {
            BuildChannel::Stable
        } else if str_eq(value, "beta") {
            BuildChannel::Beta
        } else if str_eq(value, "nightly") {
            BuildChannel::Nightly
        } else {
            BuildChannel::Custom(value.to_owned())
        }
    }

    /// The channel's name.
    pub fn to_string(&self) -> (r: String)
        ensures
            r@ == channel_name(self@),
    {
        match self {
            BuildChannel::Stable => "stable".to_owned(),
            BuildChannel::Beta => "beta".to_owned(),
            BuildChannel::Nightly => "nightly".to_owned(),
            BuildChannel::Custom(v) => v.clone(),
        }
    }
}

/// The channel a build with channel variable `value` was made for. An empty value
/// counts as unset.
pub fn build_channel(value: Option<&str>) -> (r: BuildChannel)
    ensures
        r@ == channel_of(opt_view(value)),
{
    match value {
        Some(v) => {
            if str_eq(v, "") {
                proof {
                    reveal_strlit("");
                }
                BuildChannel::Nightly
            } else {
                proof {
                    reveal_strlit("");
                    if v@.len() == 0 {
                        assert(v@ =~= ""@);
                    }
                }
                BuildChannel::from(v)
            }
        },
        None => BuildChannel::Nightly,
    }
}

/// Whether the first `k` characters of `commit` take seven bytes.
pub open spec fn abbreviates(commit: Seq<char>, k: int) -> bool {
    0 <= k <= commit.len() && byte_off(commit, k) == 7
}

/// The commit abbreviated to seven bytes; the whole value when it has no such
/// beginning.
pub open spec fn abbreviated(commit: Seq<char>) -> Seq<char> {
    if exists|k: int| abbreviates(commit, k) {
        commit.take(choose|k: int| abbreviates(commit, k))
    } else {
        commit
    }
}

/// The commit abbreviated the way version output shows it.
pub fn short_commit(commit: &str) -> (r: String)
    ensures
        r@ == abbreviated(commit@),
{
    let chars = Chars::of(commit);
    let n: usize = chars.offs.len();
    let mut k: usize = 0;
    while k < n
        invariant
            chars.wf(),
            chars.cs@ == commit@,
            n == chars.offs.len(),
            k <= n,
            forall|j: int| 0 <= j < k ==> byte_off(commit@, j) != 7,
        decreases n - k,
    {
        if chars.off(k) == 7 {
            proof {
                assert(abbreviates(commit@, k as int));
                let c = choose|c: int| abbreviates(commit@, c);
                if c < k {
                    byte_off_grows(commit@, c, k as int);
                } else if k < c {
                    byte_off_grows(commit@, k as int, c);
                }
                assert(commit@.take(k as int) =~= commit@.subrange(0, k as int));
            }
            return string_of(&chars.cs, 0, k);
        }
        k = k + 1;
    }
    assert(!exists|j: int| abbreviates(commit@, j));
    commit.to_owned()
}

/// The version a binary reports.
pub open spec fn version_text(
    version: Seq<char>,
    channel: Option<Seq<char>>,
    commit: Seq<char>,
) -> Seq<char> {
    version + " ("@ + channel_name(channel_of(channel)) + " "@ + abbreviated(commit) + ")"@
}

/// The version a binary reports, e.g. `0.1.0 (nightly 8314ac1)`. The channel and
/// commit are part of it because the version alone identifies a release, not a build.
pub fn version_string(version: &str, channel: Option<&str>, commit: &str) -> (r: String)
    ensures
        r@ == version_text(version@, opt_view(channel), commit@),
{
    let name = build_channel(channel).to_string();
    let short = short_commit(commit);
    let head = cat5(version, " (", &name, " ", &short);
    cat2(&head, ")")
}

/// The tag that identifies a compiler.
pub open spec fn tag_text(
    version: Seq<char>,
    channel: Option<Seq<char>>,
    commit: Seq<char>,
) -> Seq<char> {
    version + "@"@ + channel_name(channel_of(channel)) + "-"@ + commit
}

/// The tag that identifies a compiler, with the full commit: meant to be compared for
/// equality by consumers that must not reuse an artifact of a different compiler.
pub fn compiler_tag(version: &str, channel: Option<&str>, commit: &str) -> (r: String)
    ensures
        r@ == tag_text(version@, opt_view(channel), commit@),
{
    let name = build_channel(channel).to_string();
    cat5(version, "@", &name, "-", commit)
}

/// Two builds of one version and channel have the same tag only if they come from the
/// same commit.
pub proof fn tags_tell_commits_apart(
    version: Seq<char>,
    channel: Option<Seq<char>>,
    a: Seq<char>,
    b: Seq<char>,
)
    requires
        tag_text(version, channel, a) == tag_text(version, channel, b),
    ensures
        a == b,
{
    let head = version + "@"@ + channel_name(channel_of(channel)) + "-"@;
    let ta = tag_text(version, channel, a);
    let tb = tag_text(version, channel, b);
    assert(ta =~= head + a);
    assert(tb =~= head + b);
    assert(ta.skip(head.len() as int) =~= a);
    assert(tb.skip(head.len() as int) =~= b);
}

} // verus!
