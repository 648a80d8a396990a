use vstd::prelude::*;

verus! {

use vstd::string::StringSliceAdditionalSpecFns;

/// The tags under which trace output can be switched on, one per subsystem.
#[derive(Debug, Clone, Copy, PartialEq, Eq, Structural)]
pub enum AdbTrace {
    Adb,
    Sockets,
    Packets,
    Transport,
    Rwx,
    Usb,
    Sync,
    Sysdeps,
    Jdwp,
    Services,
    Auth,
    Fdevent,
    Shell,
    Incremental,
    Mdns,
    MdnsStack,
}

/// The textual name of a tag, as bytes.
pub open spec fn tag_bytes(t: AdbTrace) -> Seq<u8> {
    match t {
        AdbTrace::Adb => "adb".spec_bytes(),
        AdbTrace::Sockets => "sockets".spec_bytes(),
        AdbTrace::Packets => "packets".spec_bytes(),
        AdbTrace::Transport => "transport".spec_bytes(),
        AdbTrace::Rwx => "rwx".spec_bytes(),
        AdbTrace::Usb => "usb".spec_bytes(),
        AdbTrace::Sync => "sync".spec_bytes(),
        AdbTrace::Sysdeps => "sysdeps".spec_bytes(),
        AdbTrace::Jdwp => "jdwp".spec_bytes(),
        AdbTrace::Services => "services".spec_bytes(),
        AdbTrace::Auth => "auth".spec_bytes(),
        AdbTrace::Fdevent => "fdevent".spec_bytes(),
        AdbTrace::Shell => "shell".spec_bytes(),
        AdbTrace::Incremental => "incremental".spec_bytes(),
        AdbTrace::Mdns => "mdns".spec_bytes(),
        AdbTrace::MdnsStack => "mdns_stack".spec_bytes(),
    }
}

/// The tag a byte string names, if any.
pub open spec fn tag_of_bytes(b: Seq<u8>) -> Option<AdbTrace> {
    if b == "adb".spec_bytes() {
        Some(AdbTrace::Adb)
    } else if b == "sockets".spec_bytes() {
        Some(AdbTrace::Sockets)
    } else if b == "packets".spec_bytes() {
        Some(AdbTrace::Packets)
    } else if b == "transport".spec_bytes() {
        Some(AdbTrace::Transport)
    } else if b == "rwx".spec_bytes() {
        Some(AdbTrace::Rwx)
    } else if b == "usb".spec_bytes() {
        Some(AdbTrace::Usb)
    } else if b == "sync".spec_bytes() {
        Some(AdbTrace::Sync)
    } else if b == "sysdeps".spec_bytes() {
        Some(AdbTrace::Sysdeps)
    } else if b == "jdwp".spec_bytes() {
        Some(AdbTrace::Jdwp)
    } else if b == "services".spec_bytes() {
        Some(AdbTrace::Services)
    } else if b == "auth".spec_bytes() {
        Some(AdbTrace::Auth)
    } else if b == "fdevent".spec_bytes() {
        Some(AdbTrace::Fdevent)
    } else if b == "shell".spec_bytes() {
        Some(AdbTrace::Shell)
    } else if b == "incremental".spec_bytes() {
        Some(AdbTrace::Incremental)
    } else if b == "mdns".spec_bytes() {
        Some(AdbTrace::Mdns)
    } else if b == "mdns_stack".spec_bytes() {
        Some(AdbTrace::MdnsStack)
    } else {
        None
    }
}

/// Every tag, in declaration order.
pub open spec fn all_tags_seq() -> Seq<AdbTrace> {
    seq![
        AdbTrace::Adb,
        AdbTrace::Sockets,
        AdbTrace::Packets,
        AdbTrace::Transport,
        AdbTrace::Rwx,
        AdbTrace::Usb,
        AdbTrace::Sync,
        AdbTrace::Sysdeps,
        AdbTrace::Jdwp,
        AdbTrace::Services,
        AdbTrace::Auth,
        AdbTrace::Fdevent,
        AdbTrace::Shell,
        AdbTrace::Incremental,
        AdbTrace::Mdns,
        AdbTrace::MdnsStack,
    ]
}

/// Whether two byte strings are equal, byte for byte.
pub fn bytes_eq(a: &[u8], b: &[u8]) -> (r: bool)
    ensures
        r == (a@ == b@),
{
    if a.len() != b.len() {
        return false;
    }
    let n = a.len();
    let mut i: usize = 0;
    while i < n
        invariant
            i <= n,
            n == a@.len(),
            a@.len() == b@.len(),
            forall|j: int| 0 <= j < i ==> a@[j] == b@[j],
        decreases n - i,
    {
        if a[i] != b[i] {
            return false;
        }
        i += 1;
    }
    proof {
        assert(a@ =~= b@);
    }
    true
}

impl AdbTrace {
    /// The tag's textual name.
    pub fn as_str(&self) -> (r: &'static str)
        ensures
            r.spec_bytes() == tag_bytes(*self),
            tag_of_bytes(r.spec_bytes()) == Some(*self),
    {
        proof {
            lemma_tag_bytes_round_trip(*self);
        }
        match self {
            AdbTrace::Adb => "adb",
            AdbTrace::Sockets => "sockets",
            AdbTrace::Packets => "packets",
            AdbTrace::Transport => "transport",
            AdbTrace::Rwx => "rwx",
            AdbTrace::Usb => "usb",
            AdbTrace::Sync => "sync",
            AdbTrace::Sysdeps => "sysdeps",
            AdbTrace::Jdwp => "jdwp",
            AdbTrace::Services => "services",
            AdbTrace::Auth => "auth",
            AdbTrace::Fdevent => "fdevent",
            AdbTrace::Shell => "shell",
            AdbTrace::Incremental => "incremental",
            AdbTrace::Mdns => "mdns",
            AdbTrace::MdnsStack => "mdns_stack",
        }
    }

    /// The tag a string names, if any.
    pub fn from_str(s: &str) -> (r: Option<AdbTrace>)
        ensures
            r == tag_of_bytes(s.spec_bytes()),
    {
        tag_from_bytes(s.as_bytes())
    }

    /// Every tag, in declaration order.
    pub fn all_tags() -> (r: Vec<AdbTrace>)
        ensures
            r@ == all_tags_seq(),
    {
        let mut v: Vec<AdbTrace> = Vec::new();
        v.push(AdbTrace::Adb);
        v.push(AdbTrace::Sockets);
        v.push(AdbTrace::Packets);
        v.push(AdbTrace::Transport);
        v.push(AdbTrace::Rwx);
        v.push(AdbTrace::Usb);
        v.push(AdbTrace::Sync);
        v.push(AdbTrace::Sysdeps);
        v.push(AdbTrace::Jdwp);
        v.push(AdbTrace::Services);
        v.push(AdbTrace::Auth);
        v.push(AdbTrace::Fdevent);
        v.push(AdbTrace::Shell);
        v.push(AdbTrace::Incremental);
        v.push(AdbTrace::Mdns);
        v.push(AdbTrace::MdnsStack);
        proof {
            assert(v@ =~= all_tags_seq());
        }
        v
    }
}

/// The tag a byte string names, if any.
fn tag_from_bytes(b: &[u8]) -> (r: Option<AdbTrace>)
    ensures
        r == tag_of_bytes(b@),
{
    {
        if bytes_eq(b, "adb".as_bytes()) {
            Some(AdbTrace::Adb)
        } else if bytes_eq(b, "sockets".as_bytes()) {
            Some(AdbTrace::Sockets)
        } else if bytes_eq(b, "packets".as_bytes()) {
            Some(AdbTrace::Packets)
        } else if bytes_eq(b, "transport".as_bytes()) {
            Some(AdbTrace::Transport)
        } else if bytes_eq(b, "rwx".as_bytes()) {
            Some(AdbTrace::Rwx)
        } else if bytes_eq(b, "usb".as_bytes()) {
            Some(AdbTrace::Usb)
        } else if bytes_eq(b, "sync".as_bytes()) {
            Some(AdbTrace::Sync)
        } else if bytes_eq(b, "sysdeps".as_bytes()) {
            Some(AdbTrace::Sysdeps)
        } else if bytes_eq(b, "jdwp".as_bytes()) {
            Some(AdbTrace::Jdwp)
        } else if bytes_eq(b, "services".as_bytes()) {
            Some(AdbTrace::Services)
        } else if bytes_eq(b, "auth".as_bytes()) {
            Some(AdbTrace::Auth)
        } else if bytes_eq(b, "fdevent".as_bytes()) {
            Some(AdbTrace::Fdevent)
        } else if bytes_eq(b, "shell".as_bytes()) {
            Some(AdbTrace::Shell)
        } else if bytes_eq(b, "incremental".as_bytes()) {
            Some(AdbTrace::Incremental)
        } else if bytes_eq(b, "mdns".as_bytes()) {
            Some(AdbTrace::Mdns)
        } else if bytes_eq(b, "mdns_stack".as_bytes()) {
            Some(AdbTrace::MdnsStack)
        } else {
            None
        }
    }
}

/// A tag's own name maps back to the tag: the sixteen names are distinct.
pub proof fn lemma_tag_bytes_round_trip(t: AdbTrace)
    ensures
        tag_of_bytes(tag_bytes(t)) == Some(t),
{
    reveal_strlit("adb");
    reveal_strlit("sockets");
    reveal_strlit("packets");
    reveal_strlit("transport");
    reveal_strlit("rwx");
    reveal_strlit("usb");
    reveal_strlit("sync");
    reveal_strlit("sysdeps");
    reveal_strlit("jdwp");
    reveal_strlit("services");
    reveal_strlit("auth");
    reveal_strlit("fdevent");
    reveal_strlit("shell");
    reveal_strlit("incremental");
    reveal_strlit("mdns");
    reveal_strlit("mdns_stack");
    broadcast use vstd::utf8::is_ascii_chars_encode_utf8;

    assert(vstd::utf8::is_ascii_chars("adb"@));
    assert(vstd::utf8::is_ascii_chars("sockets"@));
    assert(vstd::utf8::is_ascii_chars("packets"@));
    assert(vstd::utf8::is_ascii_chars("transport"@));
    assert(vstd::utf8::is_ascii_chars("rwx"@));
    assert(vstd::utf8::is_ascii_chars("usb"@));
    assert(vstd::utf8::is_ascii_chars("sync"@));
    assert(vstd::utf8::is_ascii_chars("sysdeps"@));
    assert(vstd::utf8::is_ascii_chars("jdwp"@));
    assert(vstd::utf8::is_ascii_chars("services"@));
    assert(vstd::utf8::is_ascii_chars("auth"@));
    assert(vstd::utf8::is_ascii_chars("fdevent"@));
    assert(vstd::utf8::is_ascii_chars("shell"@));
    assert(vstd::utf8::is_ascii_chars("incremental"@));
    assert(vstd::utf8::is_ascii_chars("mdns"@));
    assert(vstd::utf8::is_ascii_chars("mdns_stack"@));
    assert("adb".spec_bytes()[0] == 'a' as u8);
    assert("sockets".spec_bytes()[0] == 's' as u8);
    assert("sockets".spec_bytes()[1] == 'o' as u8);
    assert("packets".spec_bytes()[0] == 'p' as u8);
    assert("transport".spec_bytes()[0] == 't' as u8);
    assert("rwx".spec_bytes()[0] == 'r' as u8);
    assert("usb".spec_bytes()[0] == 'u' as u8);
    assert("sync".spec_bytes()[0] == 's' as u8);
    assert("sysdeps".spec_bytes()[0] == 's' as u8);
    assert("sysdeps".spec_bytes()[1] == 'y' as u8);
    assert("jdwp".spec_bytes()[0] == 'j' as u8);
    assert("services".spec_bytes()[0] == 's' as u8);
    assert("auth".spec_bytes()[0] == 'a' as u8);
    assert("fdevent".spec_bytes()[0] == 'f' as u8);
    assert("shell".spec_bytes()[0] == 's' as u8);
    assert("incremental".spec_bytes()[0] == 'i' as u8);
    assert("mdns".spec_bytes()[0] == 'm' as u8);
    assert("mdns_stack".spec_bytes()[0] == 'm' as u8);
    assert("mdns_stack".spec_bytes()[4] == 0x5f);
}

/// Whether a byte separates tags in a trace setting: a comma or a space.
pub open spec fn is_separator(b: u8) -> bool {
    b == 0x2c || b == 0x20
}

/// The setting split at separators, empty tokens included. The result always
/// holds at least one token: splitting the empty string gives one empty token.
pub open spec fn split_tokens(s: Seq<u8>) -> Seq<Seq<u8>>
    decreases s.len(),
{
    if s.len() == 0 {
        seq![Seq::<u8>::empty()]
    } else if is_separator(s[0]) {
        seq![Seq::<u8>::empty()] + split_tokens(s.drop_first())
    } else {
        let rest = split_tokens(s.drop_first());
        seq![seq![s[0]] + rest[0]] + rest.drop_first()
    }
}

/// A partly-built first token put back in front of the remaining tokens.
spec fn merge_first(cur: Seq<u8>, toks: Seq<Seq<u8>>) -> Seq<Seq<u8>>
    recommends
        toks.len() > 0,
{
    seq![cur + toks[0]] + toks.drop_first()
}

proof fn lemma_split_tokens_nonempty(s: Seq<u8>)
    ensures
        split_tokens(s).len() > 0,
    decreases s.len(),
{
    if s.len() != 0 {
        lemma_split_tokens_nonempty(s.drop_first());
    }
}

/// The tags the tokens name, in order, unknown tokens skipped.
pub open spec fn tags_of_tokens(toks: Seq<Seq<u8>>) -> Seq<AdbTrace>
    decreases toks.len(),
{
    if toks.len() == 0 {
        seq![]
    } else {
        let rest = tags_of_tokens(toks.drop_last());
        match tag_of_bytes(toks.last()) {
            Some(t) => rest.push(t),
            None => rest,
        }
    }
}

/// The tags a trace setting switches on: every tag when some token is "1" or
/// "all", and otherwise the tags the tokens name, in order.
pub open spec fn trace_filters_of(s: Seq<u8>) -> Seq<AdbTrace> {
    let toks = split_tokens(s);
    if toks.contains("1".spec_bytes()) || toks.contains("all".spec_bytes()) {
        all_tags_seq()
    } else {
        tags_of_tokens(toks)
    }
}

/// The tags a trace setting such as the ADB_TRACE environment variable
/// switches on: tokens are separated by commas or spaces, the tokens "1" and
/// "all" switch every tag on, and unknown tokens are ignored.
pub fn trace_filters(setting: &str) -> (r: Vec<AdbTrace>)
    ensures
        r@ == trace_filters_of(setting.spec_bytes()),
{
    let bytes = setting.as_bytes();
    let n = bytes.len();
    let mut tokens: Vec<Vec<u8>> = Vec::new();
    let mut cur: Vec<u8> = Vec::new();
    let mut i: usize = 0;
    proof {
        lemma_split_tokens_nonempty(bytes@);
        assert(bytes@.skip(0) =~= bytes@);
        assert(merge_first(cur@, split_tokens(bytes@)) =~~= split_tokens(bytes@)) by {
            lemma_split_tokens_nonempty(bytes@);
        }
    }
    while i < n
        invariant
            i <= n,
            n == bytes@.len(),
            split_tokens(bytes@) =~~= tokens@.map_values(|v: Vec<u8>| v@) + merge_first(
                cur@,
                split_tokens(bytes@.skip(i as int)),
            ),
        decreases n - i,
    {
        let ghost pre_suffix = bytes@.skip(i as int);
        proof {
            assert(pre_suffix.len() > 0);
            assert(pre_suffix[0] == bytes@[i as int]);
            assert(pre_suffix.drop_first() =~= bytes@.skip(i as int + 1));
            lemma_split_tokens_nonempty(pre_suffix.drop_first());
        }
        let b = bytes[i];
        if b == 0x2c || b == 0x20 {
            let ghost toks_pre = tokens@;
            let ghost cur_pre = cur@;
            tokens.push(cur);
            cur = Vec::new();
            proof {
                assert(split_tokens(pre_suffix) =~~= seq![Seq::<u8>::empty()] + split_tokens(
                    bytes@.skip(i as int + 1),
                ));
                assert(merge_first(cur_pre, split_tokens(pre_suffix)) =~~= seq![cur_pre]
                    + split_tokens(bytes@.skip(i as int + 1)));
                assert(merge_first(cur@, split_tokens(bytes@.skip(i as int + 1))) =~~= split_tokens(
                    bytes@.skip(i as int + 1),
                )) by {
                    lemma_split_tokens_nonempty(bytes@.skip(i as int + 1));
                }
                assert(tokens@.map_values(|v: Vec<u8>| v@) =~~= toks_pre.map_values(
                    |v: Vec<u8>| v@,
                ).push(cur_pre));
                assert(split_tokens(bytes@) =~~= tokens@.map_values(|v: Vec<u8>| v@) + merge_first(
                    cur@,
                    split_tokens(bytes@.skip(i as int + 1)),
                ));
            }
        } else {
            let ghost cur_pre = cur@;
            cur.push(b);
            proof {
                let rest = split_tokens(bytes@.skip(i as int + 1));
                assert(split_tokens(pre_suffix) =~~= seq![seq![b] + rest[0]] + rest.drop_first());
                assert(cur_pre + (seq![b] + rest[0]) =~= cur@ + rest[0]);
                assert(merge_first(cur_pre, split_tokens(pre_suffix)) =~~= merge_first(cur@, rest));
                assert(split_tokens(bytes@) =~~= tokens@.map_values(|v: Vec<u8>| v@) + merge_first(
                    cur@,
                    rest,
                ));
            }
        }
        i += 1;
    }
    let ghost toks_pre = tokens@;
    let ghost cur_pre = cur@;
    tokens.push(cur);
    proof {
        assert(bytes@.skip(n as int) =~= Seq::<u8>::empty());
        assert(split_tokens(Seq::<u8>::empty()) =~~= seq![Seq::<u8>::empty()]);
        assert(merge_first(cur_pre, seq![Seq::<u8>::empty()]) =~~= seq![cur_pre]);
        assert(tokens@.map_values(|v: Vec<u8>| v@) =~~= toks_pre.map_values(|v: Vec<u8>| v@).push(
            cur_pre,
        ));
        assert(tokens@.map_values(|v: Vec<u8>| v@) =~~= split_tokens(bytes@));
    }
    let ghost toks = split_tokens(bytes@);
    let m = tokens.len();
    let mut enable_all = false;
    let mut j: usize = 0;
    while j < m
        invariant
            j <= m,
            m == tokens@.len(),
            tokens@.map_values(|v: Vec<u8>| v@) =~~= toks,
            enable_all == exists|k: int|
                0 <= k < j && (#[trigger] tokens@[k]@ == "1".spec_bytes() || tokens@[k]@
                    == "all".spec_bytes()),
        decreases m - j,
    {
        let tok = &tokens[j];
        if bytes_eq(tok.as_slice(), "1".as_bytes()) || bytes_eq(tok.as_slice(), "all".as_bytes()) {
            enable_all = true;
        }
        j += 1;
    }
    if enable_all {
        proof {
            let k = choose|k: int|
                0 <= k < m && (#[trigger] tokens@[k]@ == "1".spec_bytes() || tokens@[k]@
                    == "all".spec_bytes());
            assert(toks[k] == tokens@[k]@);
            assert(toks.contains("1".spec_bytes()) || toks.contains("all".spec_bytes()));
        }
        return AdbTrace::all_tags();
    }
    proof {
        assert(!toks.contains("1".spec_bytes()) && !toks.contains("all".spec_bytes())) by {
            if toks.contains("1".spec_bytes()) {
                let k = choose|k: int| 0 <= k < toks.len() && toks[k] == "1".spec_bytes();
                assert(tokens@[k]@ == "1".spec_bytes());
            }
            if toks.contains("all".spec_bytes()) {
                let k = choose|k: int| 0 <= k < toks.len() && toks[k] == "all".spec_bytes();
                assert(tokens@[k]@ == "all".spec_bytes());
            }
        }
    }
    let mut out: Vec<AdbTrace> = Vec::new();
    let mut j: usize = 0;
    while j < m
        invariant
            j <= m,
            m == tokens@.len(),
            tokens@.map_values(|v: Vec<u8>| v@) =~~= toks,
            out@ =~= tags_of_tokens(toks.take(j as int)),
        decreases m - j,
    {
        proof {
            assert(toks.take(j as int + 1).drop_last() =~~= toks.take(j as int));
            assert(toks.take(j as int + 1).last() == tokens@[j as int]@);
        }
        match tag_from_bytes(tokens[j].as_slice()) {
            Some(t) => {
                out.push(t);
            },
            None => {
            },
        }
        j += 1;
        proof {
            assert(out@ =~= tags_of_tokens(toks.take(j as int)));
        }
    }
    proof {
        assert(toks.take(m as int) =~~= toks);
        assert(out@ =~= tags_of_tokens(toks));
    }
    out
}

} // verus!
