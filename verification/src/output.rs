//! Line formatting for the multiplexed output: trailing-newline
//! normalization, the column-aligned `[namespace/]name:` prefix, and the
//! filter/replace pipeline a streamed line runs through before printing.

use vstd::prelude::*;

use crate::matching::{regex_match, regex_replaced};
use crate::registry::{pod_width, Pod, Pods};
use crate::settings::SettingsValidated;
use crate::text::spaces;

verus! {

/// A message as written to a channel: itself if it is empty or already ends
/// in a newline, else with one newline appended.
pub open spec fn spec_normalized(m: Seq<char>) -> Seq<char> {
    if m.len() > 0 && m.last() != '\n' {
        m + seq!['\n']
    } else {
        m
    }
}

/// Ensures the message ends in at most one fresh trailing newline: a
/// non-empty message that does not end in `'\n'` gets one appended.
pub fn normalize_newline(message: String) -> (r: String)
    ensures
        r@ == spec_normalized(message@),
{
    let n = message.as_str().unicode_len();
    if n == 0 {
        return message;
    }
    let last = message.as_str().get_char(n - 1);
    if last == '\n' {
        message
    } else {
        proof {
            reveal_strlit("\n");
        }
        let r = message.concat("\n");
        proof {
            assert(r@ =~= spec_normalized(r@));
        }
        r
    }
}

/// The unpadded prefix core: `namespace/name` when namespaces are shown,
/// `name` otherwise.
pub open spec fn spec_prefix_core(pod: &Pod, show: bool) -> Seq<char> {
    if show {
        pod.namespace@ + seq!['/'] + pod.name@
    } else {
        pod.name@
    }
}

/// The run of spaces that pads the core out to the column width (none when
/// the core is already as wide).
pub open spec fn spec_gap(pod: &Pod, show: bool, padding: nat) -> nat {
    if padding >= pod_width(*pod, show) {
        (padding - pod_width(*pod, show)) as nat
    } else {
        0
    }
}

/// A fully formatted output line: the core padded to the column width, a
/// colon, one space, and the line itself.
pub open spec fn spec_formatted(pod: &Pod, padding: nat, show: bool, line: Seq<char>) -> Seq<
    char,
> {
    spec_prefix_core(pod, show) + Seq::new(spec_gap(pod, show, padding), |i: int| ' ') + seq![
        ':',
        ' ',
    ] + line
}

/// Formats one line under the current column width: prefixes of concurrently
/// printing pods align on the colon.
pub fn format_log_line(pod: &Pod, padding: usize, print_namespace: bool, line: &str) -> (r: String)
    ensures
        r@ == spec_formatted(pod, padding as nat, print_namespace, line@),
{
    let mut core = String::new();
    if print_namespace {
        core.append(pod.namespace.as_str());
        proof {
            reveal_strlit("/");
        }
        core.append("/");
    }
    core.append(pod.name.as_str());
    proof {
        assert(core@ =~= spec_prefix_core(pod, print_namespace));
        assert(core@.len() == pod_width(*pod, print_namespace));
    }
    let w = core.as_str().unicode_len();
    let gap = if padding >= w {
        padding - w
    } else {
        0
    };
    let sp = spaces(gap);
    core.append(sp.as_str());
    proof {
        reveal_strlit(": ");
    }
    core.append(": ");
    core.append(line);
    proof {
        assert(core@ =~= spec_formatted(pod, padding as nat, print_namespace, line@));
    }
    core
}

/// Whether a streamed line survives the filters: the filter, if set, matches
/// it, and the inverse filter, if set, does not.
pub open spec fn spec_line_passes(settings: &SettingsValidated, line: Seq<char>) -> bool {
    &&& (settings.filter matches Some(f) ==> regex_match(f.pattern(), line))
    &&& (settings.inv_filter matches Some(f) ==> !regex_match(f.pattern(), line))
}

/// The line as printed: the replace rule applied when one is set.
pub open spec fn spec_applied(settings: &SettingsValidated, line: Seq<char>) -> Seq<char> {
    match settings.replace {
        Some(rp) => regex_replaced(rp.pattern.pattern(), line, rp.value@),
        None => line,
    }
}

/// Runs one streamed line through the pipeline: drops it if the filters say
/// so, applies the replace rule, and formats it under the registry's current
/// padding (read fresh on every line: it moves as pods join and leave).
/// Returns the message to print, or nothing for a dropped line.
pub fn process_line(line: &String, settings: &SettingsValidated, pods: &Pods, pod: &Pod) -> (r:
    Option<String>)
    ensures
        r is Some <==> spec_line_passes(settings, line@),
        r matches Some(msg) ==> msg@ == spec_formatted(
            pod,
            pods.padding as nat,
            pods.print_namespace,
            spec_applied(settings, line@),
        ),
{
    match &settings.filter {
        Some(f) => {
            if !f.is_match(line.as_str()) {
                return None;
            }
        },
        None => {},
    }
    match &settings.inv_filter {
        Some(f) => {
            if f.is_match(line.as_str()) {
                return None;
            }
        },
        None => {},
    }
    let applied = match &settings.replace {
        Some(rp) => rp.pattern.replace_all(line.as_str(), rp.value.as_str()),
        None => line.clone(),
    };
    Some(format_log_line(pod, pods.padding, pods.print_namespace, applied.as_str()))
}

} // verus!
