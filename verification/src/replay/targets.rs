//! The expert hosts that a replay is sent to.
use crate::replay::TP_WORLD;
use crate::text;
use crate::text::{append_count, find, quoted, split, trim};
use vstd::prelude::*;
use vstd::string::*;

verus! {

#[derive(Debug, Clone, Copy, PartialEq, Eq, Structural)]
pub enum TargetFault {
    Format,
    EmptyHost,
    DuplicateHost,
    NoTargets,
    /// Not one target for each rank.
    Count { found: usize },
}

impl TargetFault {
    /// The fault in words; `subject` is the entry or host that it is about.
    pub open spec fn words(self, subject: Seq<char>) -> Seq<char> {
        match self {
            TargetFault::Format => "invalid expert target "@ + text::quoted_text(subject)
                + "; expected host=addr"@,
            TargetFault::EmptyHost => "expert target "@ + text::quoted_text(subject)
                + " has an empty host"@,
            TargetFault::DuplicateHost => "duplicate expert target host "@ + subject,
            TargetFault::NoTargets =>
                "--expert-hosts must contain at least one host=addr target"@,
            TargetFault::Count { found } => "strict TP4 reduction replay requires exactly "@
                + text::decimal(TP_WORLD as nat) + " expert targets, got "@ + text::decimal(
                found as nat,
            ),
        }
    }

    pub fn message(&self, subject: &str) -> (r: String)
        ensures
            r@ == self.words(subject@),
    {
        let mut out = String::new();
        match self {
            TargetFault::Format => {
                out.append("invalid expert target ");
                out.append(quoted(subject).as_str());
                out.append("; expected host=addr");
            },
            TargetFault::EmptyHost => {
                out.append("expert target ");
                out.append(quoted(subject).as_str());
                out.append(" has an empty host");
            },
            TargetFault::DuplicateHost => {
                out.append("duplicate expert target host ");
                out.append(subject);
            },
            TargetFault::NoTargets => {
                out.append("--expert-hosts must contain at least one host=addr target");
            },
            TargetFault::Count { found } => {
                out.append("strict TP4 reduction replay requires exactly ");
                append_count(&mut out, TP_WORLD);
                out.append(" expert targets, got ");
                append_count(&mut out, *found);
            },
        }
        assert(out@ =~= self.words(subject@));
        out
    }
}

/// The parts that are more than blanks, without the blanks at their ends.
pub open spec fn kept(parts: Seq<Seq<char>>) -> Seq<Seq<char>>
    decreases parts.len(),
{
    if parts.len() == 0 {
        Seq::empty()
    } else {
        let before = kept(parts.drop_last());
        let part = text::trimmed(parts.last());
        if part.len() == 0 {
            before
        } else {
            before.push(part)
        }
    }
}

/// The entries of a comma-separated list of targets.
pub fn target_entries<'a>(raw: &'a str) -> (r: Vec<&'a str>)
    ensures
        r@.map_values(|entry: &'a str| entry@) == kept(text::pieces(raw@, ',')),
{
    let parts = split(raw, ',');
    let ghost seen = |entry: &'a str| entry@;
    let ghost all = text::pieces(raw@, ',');
    let mut out: Vec<&'a str> = Vec::new();
    let mut i: usize = 0;
    assert(out@.map_values(seen) =~= kept(all.take(0)));
    while i < parts.len()
        invariant
            i <= parts@.len(),
            seen == (|entry: &'a str| entry@),
            parts@.map_values(seen) == all,
            out@.map_values(seen) == kept(all.take(i as int)),
        decreases parts@.len() - i,
    {
        let entry = trim(parts[i]);
        let ghost before = out@.map_values(seen);
        proof {
            assert(all.take(i + 1).drop_last() =~= all.take(i as int));
            assert(all[i as int] == parts@.map_values(seen)[i as int]);
        }
        if entry.unicode_len() > 0 {
            out.push(entry);
            assert(out@.map_values(seen) =~= before.push(entry@));
        }
        i = i + 1;
    }
    assert(all.take(i as int) =~= all);
    out
}

/// Splits an entry at its first equals sign into host and address.
pub fn split_target<'a>(entry: &'a str) -> (r: Result<(&'a str, &'a str), TargetFault>)
    ensures
        match r {
            Ok((host, address)) => exists|at: int|
                0 <= at < entry@.len() && #[trigger] entry@[at] == '=' && (forall|k: int|
                    0 <= k < at ==> entry@[k] != '=') && host@ == text::trimmed(entry@.take(at))
                    && host@.len() > 0 && address@ == text::trimmed(entry@.skip(at + 1)),
            Err(TargetFault::Format) => !entry@.contains('='),
            Err(TargetFault::EmptyHost) => exists|at: int|
                0 <= at < entry@.len() && #[trigger] entry@[at] == '=' && (forall|k: int|
                    0 <= k < at ==> entry@[k] != '=') && text::trimmed(entry@.take(at)).len() == 0,
            Err(_) => false,
        },
{
    let at: usize = match find(entry, '=') {
        None => {
            return Err(TargetFault::Format);
        },
        Some(at) => at,
    };
    let n: usize = entry.unicode_len();
    let left = entry.substring_char(0, at);
    let right = entry.substring_char(at + 1, n);
    assert(left@ =~= entry@.take(at as int));
    assert(right@ =~= entry@.skip(at + 1));
    assert(entry@[at as int] == '=');
    let host = trim(left);
    if host.unicode_len() == 0 {
        return Err(TargetFault::EmptyHost);
    }
    Ok((host, trim(right)))
}

/// The hosts that have been accepted.
pub struct TargetHosts {
    pub hosts: Vec<String>,
}

impl TargetHosts {
    pub open spec fn holds(&self, host: Seq<char>) -> bool {
        exists|i: int| 0 <= i < self.hosts@.len() && (#[trigger] self.hosts@[i])@ == host
    }

    pub fn new() -> (r: Self)
        ensures
            r.hosts@.len() == 0,
    {
        TargetHosts { hosts: Vec::new() }
    }

    /// Takes a host that is not there yet.
    pub fn push(&mut self, host: &str) -> (r: Result<(), TargetFault>)
        ensures
            match r {
                Ok(_) => {
                    &&& !old(self).holds(host@)
                    &&& final(self).hosts@.len() == old(self).hosts@.len() + 1
                    &&& final(self).hosts@.drop_last() == old(self).hosts@
                    &&& final(self).hosts@.last()@ == host@
                },
                Err(fault) => {
                    &&& fault == TargetFault::DuplicateHost
                    &&& old(self).holds(host@)
                    &&& *final(self) == *old(self)
                },
            },
    {
        let mut i: usize = 0;
        while i < self.hosts.len()
            invariant
                i <= self.hosts@.len(),
                *self == *old(self),
                forall|k: int| 0 <= k < i ==> (#[trigger] self.hosts@[k])@ != host@,
            decreases self.hosts@.len() - i,
        {
            if text::same_text(self.hosts[i].as_str(), host) {
                return Err(TargetFault::DuplicateHost);
            }
            i = i + 1;
        }
        self.hosts.push(host.to_owned());
        assert(self.hosts@.drop_last() =~= old(self).hosts@);
        Ok(())
    }

    /// The hosts are one for each rank.
    pub fn finish(&self) -> (r: Result<(), TargetFault>)
        ensures
            match r {
                Ok(_) => self.hosts@.len() == TP_WORLD,
                Err(TargetFault::NoTargets) => self.hosts@.len() == 0,
                Err(TargetFault::Count { found }) => found == self.hosts@.len() && found
                    != TP_WORLD && found != 0,
                Err(_) => false,
            },
    {
        if self.hosts.len() == 0 {
            return Err(TargetFault::NoTargets);
        }
        if self.hosts.len() != TP_WORLD {
            return Err(TargetFault::Count { found: self.hosts.len() });
        }
        Ok(())
    }
}

/// The entries of a list are its parts without the blanks at their ends, in their order;
/// parts of blanks alone are left out, and so is nothing else.
pub proof fn law_entries_are_the_parts(before: Seq<Seq<char>>, part: Seq<char>, after: Seq<Seq<char>>)
    ensures
        kept(before + seq![part] + after) == kept(before) + kept(seq![part]) + kept(after),
        kept(Seq::<Seq<char>>::empty()).len() == 0,
        text::trimmed(part).len() == 0 ==> kept(seq![part]).len() == 0,
        text::trimmed(part).len() > 0 ==> kept(seq![part]) == seq![text::trimmed(part)],
    decreases after.len(),
{
    let empty = Seq::<Seq<char>>::empty();
    reveal_with_fuel(kept, 2);
    assert(seq![part].drop_last() =~= empty);
    assert(kept(seq![part]) =~= if text::trimmed(part).len() == 0 {
        Seq::empty()
    } else {
        seq![text::trimmed(part)]
    });
    let all = before + seq![part] + after;
    if after.len() == 0 {
        assert(all.drop_last() =~= before);
        assert(all.last() == part);
        assert(kept(all) =~= kept(before) + kept(seq![part]) + kept(after));
    } else {
        law_entries_are_the_parts(before, part, after.drop_last());
        assert(all.drop_last() =~= before + seq![part] + after.drop_last());
        assert(all.last() == after.last());
        assert(kept(all) =~= kept(before) + kept(seq![part]) + kept(after));
    }
}

} // verus!
