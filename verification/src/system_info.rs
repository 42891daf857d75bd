use vstd::prelude::*;
use vstd::string::StringExecFns;
use vstd::string::StringSliceAdditionalSpecFns;
use vstd::utf8::*;
use crate::boundaries::{lemma_boundary_around_ascii, substr};
use crate::byte_search::{lines_of, strip_prefix_all, strip_prefix_all_exec};
use crate::chars::{strip_char, stripped_of};
use crate::text::{
    join, join_exec, lemma_slices_decode, lines_exec, slice_texts, str_starts_with, text_lines,
    text_starts_with, texts,
};

verus! {

broadcast use vstd::utf8::encode_utf8_valid_utf8;

/// What was found out about the system that commands are made for.
pub struct SystemProbe {
    /// The text of the file that describes the distribution, if it could be read.
    pub os_release: Option<String>,
    /// The name of the operating system, if it was asked for and given.
    pub os_name: Option<String>,
    /// Whether systemd runs the system.
    pub has_systemd: bool,
    /// Whether there is a directory of init scripts.
    pub has_init_d: bool,
    /// The first package manager that could be asked for, if any.
    pub package_manager: Option<String>,
    /// The release of the kernel, if it was given.
    pub kernel: Option<String>,
}

/// The value of a line of the form `key=value`: what follows the key,
/// however often the key is repeated, without double quotes around it.
pub open spec fn value_after(line: Seq<char>, key: Seq<char>) -> Seq<char> {
    stripped_of(decode_utf8(strip_prefix_all(encode_utf8(line), encode_utf8(key))), '"')
}

/// What the lines of the distribution's description say of the system: the
/// distribution for each line that begins with `ID=`, the version for each
/// that begins with `VERSION_ID=`.
pub open spec fn release_facts(lines: Seq<Seq<char>>) -> Seq<Seq<char>>
    decreases lines.len(),
{
    if lines.len() == 0 {
        seq![]
    } else {
        let before = release_facts(lines.drop_last());
        let line = lines.last();
        if text_starts_with(line, "ID="@) {
            before.push("Distro: "@ + value_after(line, "ID="@))
        } else if text_starts_with(line, "VERSION_ID="@) {
            before.push("Version: "@ + value_after(line, "VERSION_ID="@))
        } else {
            before
        }
    }
}

/// What a text that may be missing adds to the facts, under a heading.
pub open spec fn optional_fact(heading: Seq<char>, value: Option<String>) -> Seq<Seq<char>> {
    match value {
        Some(text) => seq![heading + text@],
        None => seq![],
    }
}

/// The facts about a system, in the order in which they are told: the
/// distribution and its version, or failing the description of the
/// distribution the name of the operating system; how the system is
/// started; its package manager; its kernel.
pub open spec fn system_facts(probe: SystemProbe) -> Seq<Seq<char>> {
    (match probe.os_release {
        Some(text) => release_facts(text_lines(text@)),
        None => optional_fact("OS: "@, probe.os_name),
    }) + (if probe.has_systemd {
        seq!["Init system: systemd"@]
    } else if probe.has_init_d {
        seq!["Init system: init.d"@]
    } else {
        seq![]
    }) + optional_fact("Package manager: "@, probe.package_manager) + optional_fact(
        "Kernel: "@,
        probe.kernel,
    )
}

fn value_of(line: &str, key: &str) -> (value: String)
    requires
        key@.len() > 0 ==> key.spec_bytes().len() > 0 && key.spec_bytes().last() < 0x80,
    ensures
        value@ == value_after(line@, key@),
{
    let data = line.as_bytes();
    let from = strip_prefix_all_exec(data, key.as_bytes());
    proof {
        let bytes = line.spec_bytes();
        is_char_boundary_start_end_of_seq(bytes);
        if from > 0 {
            lemma_boundary_around_ascii(bytes, from - 1);
        }
    }
    let rest = substr(line, from, data.len());
    proof {
        encode_utf8_decode_utf8(rest@);
    }
    strip_char(rest, '"')
}

proof fn lemma_keys_are_ascii()
    ensures
        "ID=".spec_bytes().len() > 0 && "ID=".spec_bytes().last() < 0x80,
        "VERSION_ID=".spec_bytes().len() > 0 && "VERSION_ID=".spec_bytes().last() < 0x80,
{
    reveal_strlit("ID=");
    reveal_strlit("VERSION_ID=");
    vstd::string::is_ascii_spec_bytes("ID=");
    vstd::string::is_ascii_spec_bytes("VERSION_ID=");
}

fn push_optional(facts: &mut Vec<String>, heading: &str, value: &Option<String>)
    ensures
        texts(final(facts)@) == texts(old(facts)@) + optional_fact(heading@, *value),
{
    let ghost before = texts(facts@);
    match value {
        Some(text) => {
            let mut fact = String::from_str(heading);
            fact.append(text.as_str());
            facts.push(fact);
            assert(texts(facts@) =~= before + seq![heading@ + text@]);
        },
        None => {
            assert(before + Seq::<Seq<char>>::empty() =~= before);
        },
    }
}

fn push_release_facts(facts: &mut Vec<String>, os_release: &str)
    ensures
        texts(final(facts)@) == texts(old(facts)@) + release_facts(text_lines(os_release@)),
{
    let ghost before = texts(facts@);
    let lines = lines_exec(os_release);
    proof {
        lemma_slices_decode(lines@, lines_of(os_release.spec_bytes()));
        assert(slice_texts(lines@) =~= text_lines(os_release@));
        lemma_keys_are_ascii();
    }
    let mut i: usize = 0;
    assert(slice_texts(lines@).take(0) =~= Seq::<Seq<char>>::empty());
    assert(before + release_facts(slice_texts(lines@).take(0)) =~= before);
    while i < lines.len()
        invariant
            i <= lines.len(),
            "ID=".spec_bytes().len() > 0 && "ID=".spec_bytes().last() < 0x80,
            "VERSION_ID=".spec_bytes().len() > 0 && "VERSION_ID=".spec_bytes().last() < 0x80,
            texts(facts@) == before + release_facts(slice_texts(lines@).take(i as int)),
        decreases lines.len() - i,
    {
        let line = lines[i];
        let ghost so_far = texts(facts@);
        let ghost done = release_facts(slice_texts(lines@).take(i as int));
        proof {
            let longer = slice_texts(lines@).take(i + 1);
            assert(longer.drop_last() =~= slice_texts(lines@).take(i as int));
            assert(longer.last() == lines[i as int]@);
        }
        if str_starts_with(line, "ID=") {
            let mut fact = String::from_str("Distro: ");
            fact.append(value_of(line, "ID=").as_str());
            let ghost told = fact@;
            facts.push(fact);
            assert(texts(facts@) =~= so_far.push(told));
            assert(so_far.push(told) =~= before + done.push("Distro: "@ + value_after(line@, "ID="@)));
        } else if str_starts_with(line, "VERSION_ID=") {
            let mut fact = String::from_str("Version: ");
            fact.append(value_of(line, "VERSION_ID=").as_str());
            let ghost told = fact@;
            facts.push(fact);
            assert(texts(facts@) =~= so_far.push(told));
            assert(so_far.push(told) =~= before + done.push("Version: "@ + value_after(line@, "VERSION_ID="@)));
        }
        i += 1;
    }
    assert(slice_texts(lines@).take(lines.len() as int) =~= slice_texts(lines@));
}

/// Describes the system in one line: the facts that were found out about
/// it, with a comma between each two.
pub fn detect_system_info(probe: &SystemProbe) -> (info: String)
    ensures
        info@ == join(system_facts(*probe), ", "@),
{
    let mut facts: Vec<String> = Vec::new();
    assert(texts(facts@) =~= Seq::<Seq<char>>::empty());
    match &probe.os_release {
        Some(text) => {
            push_release_facts(&mut facts, text.as_str());
            assert(texts(facts@) =~= release_facts(text_lines(text@)));
        },
        None => {
            push_optional(&mut facts, "OS: ", &probe.os_name);
            assert(texts(facts@) =~= optional_fact("OS: "@, probe.os_name));
        },
    }
    let ghost first = texts(facts@);
    if probe.has_systemd {
        facts.push(String::from_str("Init system: systemd"));
        assert(texts(facts@) =~= first + seq!["Init system: systemd"@]);
    } else if probe.has_init_d {
        facts.push(String::from_str("Init system: init.d"));
        assert(texts(facts@) =~= first + seq!["Init system: init.d"@]);
    } else {
        assert(first + Seq::<Seq<char>>::empty() =~= first);
    }
    push_optional(&mut facts, "Package manager: ", &probe.package_manager);
    push_optional(&mut facts, "Kernel: ", &probe.kernel);
    join_exec(&facts, ", ")
}

} // verus!
