//! Reading log lines of the form `TIMESTAMP|LEVEL|SERVICE|MESSAGE` and
//! counting them by level and by service.

use vstd::prelude::*;
use crate::text::{same_text, spec_split, split, strs_view};

verus! {

/// How grave a log line is.
#[derive(Debug, Clone, Copy, PartialEq, Eq, Hash, Structural)]
pub enum LogLevel {
    Info,
    Warning,
    Error,
    Critical,
}

/// One log line, taken apart.
#[derive(Debug)]
pub struct LogEntry {
    pub timestamp: String,
    pub level: LogLevel,
    pub message: String,
    pub service: String,
}

/// `LogEntry` over character sequences.
pub struct LogEntryView {
    pub timestamp: Seq<char>,
    pub level: LogLevel,
    pub message: Seq<char>,
    pub service: Seq<char>,
}

impl View for LogEntry {
    type V = LogEntryView;

    open spec fn view(&self) -> LogEntryView {
        LogEntryView {
            timestamp: self.timestamp@,
            level: self.level,
            message: self.message@,
            service: self.service@,
        }
    }
}

/// The level that a word names, if it names one.
pub open spec fn spec_level(word: Seq<char>) -> Option<LogLevel> {
    if word == "INFO"@ {
        Some(LogLevel::Info)
    } else if word == "WARNING"@ {
        Some(LogLevel::Warning)
    } else if word == "ERROR"@ {
        Some(LogLevel::Error)
    } else if word == "CRITICAL"@ {
        Some(LogLevel::Critical)
    } else {
        None
    }
}

/// What a line parses to: it must have exactly four fields and a level that
/// is known.
pub open spec fn spec_parse_log_line(line: Seq<char>) -> Option<LogEntryView> {
    let parts = spec_split(line, '|');
    if parts.len() != 4 {
        None
    } else {
        match spec_level(parts[1]) {
            Some(level) => Some(
                LogEntryView { timestamp: parts[0], level, service: parts[2], message: parts[3] },
            ),
            None => None,
        }
    }
}

/// The entries that `lines` parse to, in order; lines that do not parse are
/// passed over.
pub open spec fn spec_parse_lines(lines: Seq<Seq<char>>) -> Seq<LogEntryView> {
    lines.filter_map(|l: Seq<char>| spec_parse_log_line(l))
}

/// How often `key` occurs in `keys`.
pub open spec fn occurrences<K>(keys: Seq<K>, key: K) -> nat
    decreases keys.len(),
{
    if keys.len() == 0 {
        0
    } else {
        occurrences(keys.drop_last(), key) + if keys.last() == key {
            1nat
        } else {
            0nat
        }
    }
}

/// `counts` lists `key`.
pub open spec fn has_key<K>(counts: Seq<(K, usize)>, key: K) -> bool {
    exists|i: int| 0 <= i < counts.len() && (#[trigger] counts[i]).0 == key
}

/// `counts` is the tally of `keys`: it lists each key that occurs, once, with
/// the number of times it occurs.
pub open spec fn is_tally<K>(counts: Seq<(K, usize)>, keys: Seq<K>) -> bool {
    &&& forall|i: int, j: int|
        0 <= i < j < counts.len() ==> (#[trigger] counts[i]).0 != (#[trigger] counts[j]).0
    &&& forall|i: int|
        0 <= i < counts.len() ==> (#[trigger] counts[i]).1 == occurrences(keys, counts[i].0) && counts[i].1
            >= 1
    &&& forall|k: int| 0 <= k < keys.len() ==> has_key(counts, #[trigger] keys[k])
}

/// `names` lists each of `keys` once.
pub open spec fn lists_once<K>(names: Seq<K>, keys: Seq<K>) -> bool {
    &&& names.no_duplicates()
    &&& forall|i: int| 0 <= i < names.len() ==> keys.contains(#[trigger] names[i])
    &&& forall|k: int| 0 <= k < keys.len() ==> names.contains(#[trigger] keys[k])
}

/// A key cannot occur more often than there are keys.
pub proof fn lemma_occurrences_bound<K>(keys: Seq<K>, key: K)
    ensures
        occurrences(keys, key) <= keys.len(),
    decreases keys.len(),
{
    if keys.len() > 0 {
        lemma_occurrences_bound(keys.drop_last(), key);
    }
}

/// The levels of the entries, in order.
pub open spec fn levels_of(entries: Seq<LogEntryView>) -> Seq<LogLevel> {
    entries.map_values(|e: LogEntryView| e.level)
}

/// The services of the entries, in order.
pub open spec fn services_of(entries: Seq<LogEntryView>) -> Seq<Seq<char>> {
    entries.map_values(|e: LogEntryView| e.service)
}

/// Counts read from a set of log entries.
#[derive(Debug)]
pub struct LogReport {
    /// How many entries there are.
    pub total_entries: usize,
    /// Each level that occurs, with its number of entries.
    pub level_counts: Vec<(LogLevel, usize)>,
    /// Each service that occurs, with its number of entries, in the order in
    /// which the services first occur.
    pub service_counts: Vec<(String, usize)>,
    /// Each service that occurs, once.
    pub unique_services: Vec<String>,
}

/// A list of named counts seen over character sequences.
pub open spec fn named_counts_view(v: Seq<(String, usize)>) -> Seq<(Seq<char>, usize)> {
    v.map_values(|p: (String, usize)| (p.0@, p.1))
}

impl LogReport {
    /// The report is the one that belongs to `entries`.
    pub open spec fn reports(&self, entries: Seq<LogEntryView>) -> bool {
        &&& self.total_entries == entries.len()
        &&& is_tally(self.level_counts@, levels_of(entries))
        &&& is_tally(named_counts_view(self.service_counts@), services_of(entries))
        &&& lists_once(strs_view(self.unique_services@), services_of(entries))
    }
}

/// Parsed log entries, ready to be counted.
#[derive(Debug)]
pub struct LogAnalyzer {
    log_entries: Vec<LogEntry>,
}

impl View for LogAnalyzer {
    type V = Seq<LogEntryView>;

    closed spec fn view(&self) -> Seq<LogEntryView> {
        self.log_entries@.map_values(|e: LogEntry| e@)
    }
}

/// The level that `word` names, if it names one.
pub fn parse_level(word: &str) -> (r: Option<LogLevel>)
    ensures
        r == spec_level(word@),
{
    if same_text(word, "INFO") {
        Some(LogLevel::Info)
    } else if same_text(word, "WARNING") {
        Some(LogLevel::Warning)
    } else if same_text(word, "ERROR") {
        Some(LogLevel::Error)
    } else if same_text(word, "CRITICAL") {
        Some(LogLevel::Critical)
    } else {
        None
    }
}

impl LogAnalyzer {
    /// Takes one line apart. A line with other than four fields, or with a
    /// level that is not known, gives nothing.
    pub fn parse_log_line(line: &str) -> (r: Option<LogEntry>)
        ensures
            match r {
                Some(e) => spec_parse_log_line(line@) == Some(e@),
                None => spec_parse_log_line(line@) is None,
            },
    {
        let mut parts = split(line, '|');
        if parts.len() != 4 {
            return None;
        }
        let ghost fields = strs_view(parts@);
        assert(forall|i: int| 0 <= i < 4 ==> fields[i] == parts@[i]@);
        let level = match parse_level(parts[1].as_str()) {
            Some(level) => level,
            None => {
                return None;
            },
        };
        let message = parts.pop().unwrap();
        let service = parts.pop().unwrap();
        let _ = parts.pop();
        let timestamp = parts.pop().unwrap();
        Some(LogEntry { timestamp, level, message, service })
    }

    /// Parses every line and keeps the entries of those that parse, in
    /// order.
    pub fn from_lines(lines: &Vec<String>) -> (a: LogAnalyzer)
        ensures
            a@ == spec_parse_lines(strs_view(lines@)),
    {
        let ghost all = strs_view(lines@);
        let ghost parse = |l: Seq<char>| spec_parse_log_line(l);
        let mut entries: Vec<LogEntry> = Vec::new();
        let n: usize = lines.len();
        let mut i: usize = 0;
        proof {
            assert(all.take(0) =~= Seq::<Seq<char>>::empty());
            assert(entries@.map_values(|e: LogEntry| e@) =~= Seq::<LogEntryView>::empty());
        }
        while i < n
            invariant
                i <= n,
                n == lines@.len(),
                all == strs_view(lines@),
                parse == (|l: Seq<char>| spec_parse_log_line(l)),
                entries@.map_values(|e: LogEntry| e@) == all.take(i as int).filter_map(parse),
            decreases n - i,
        {
            proof {
                all.lemma_filter_map_take_succ(parse, i as int);
                assert(all[i as int] == lines@[i as int]@);
            }
            let ghost before = entries@;
            match LogAnalyzer::parse_log_line(lines[i].as_str()) {
                Some(entry) => {
                    entries.push(entry);
                    assert(entries@.map_values(|e: LogEntry| e@) =~= before.map_values(|e: LogEntry| e@)
                        + seq![entry@]);
                },
                None => {
                    assert(all.take(i as int).filter_map(parse) + Seq::<LogEntryView>::empty()
                        =~= all.take(i as int).filter_map(parse));
                },
            }
            i += 1;
        }
        assert(all.take(n as int) =~= all);
        LogAnalyzer { log_entries: entries }
    }

    /// How many entries there are.
    pub fn len(&self) -> (n: usize)
        ensures
            n == self@.len(),
    {
        self.log_entries.len()
    }

    /// The entry at `index`, if there is one.
    pub fn get(&self, index: usize) -> (r: Option<&LogEntry>)
        ensures
            r is Some <==> index < self@.len(),
            r is Some ==> r->0@ == self@[index as int],
    {
        if index < self.log_entries.len() {
            Some(&self.log_entries[index])
        } else {
            None
        }
    }
}

/// A key that does not occur has no occurrences, and the other way round.
pub proof fn lemma_occurrences_zero<K>(keys: Seq<K>, key: K)
    ensures
        occurrences(keys, key) == 0 <==> !keys.contains(key),
    decreases keys.len(),
{
    if keys.len() > 0 {
        let rest = keys.drop_last();
        lemma_occurrences_zero(rest, key);
        if keys.contains(key) {
            let i = choose|i: int| 0 <= i < keys.len() && keys[i] == key;
            if i < rest.len() {
                assert(rest[i] == key);
            }
        }
        if rest.contains(key) {
            let i = choose|i: int| 0 <= i < rest.len() && rest[i] == key;
            assert(keys[i] == key);
        }
        if keys.last() == key {
            assert(keys[keys.len() - 1] == key);
        }
    }
}

/// Counting one more occurrence of a key that the tally lists.
proof fn lemma_tally_bump<K>(counts: Seq<(K, usize)>, seen: Seq<K>, key: K, j: int)
    requires
        is_tally(counts, seen),
        0 <= j < counts.len(),
        counts[j].0 == key,
        counts[j].1 < usize::MAX,
    ensures
        is_tally(counts.update(j, (key, (counts[j].1 + 1) as usize)), seen.push(key)),
{
    let after = counts.update(j, (key, (counts[j].1 + 1) as usize));
    let more = seen.push(key);
    assert(more.drop_last() =~= seen);
    assert forall|i: int| 0 <= i < after.len() implies (#[trigger] after[i]).1 == occurrences(
        more,
        after[i].0,
    ) && after[i].1 >= 1 by {
        if i != j {
            assert(counts[i].0 != counts[j].0);
        }
    }
    assert forall|k: int| 0 <= k < more.len() implies has_key(after, #[trigger] more[k]) by {
        if k < seen.len() {
            assert(has_key(counts, seen[k]));
            let i = choose|i: int| 0 <= i < counts.len() && (#[trigger] counts[i]).0 == seen[k];
            assert(after[i].0 == more[k]);
        } else {
            assert(after[j].0 == more[k]);
        }
    }
}

/// Counting the first occurrence of a key that the tally does not list.
proof fn lemma_tally_new<K>(counts: Seq<(K, usize)>, seen: Seq<K>, key: K)
    requires
        is_tally(counts, seen),
        !has_key(counts, key),
    ensures
        is_tally(counts.push((key, 1usize)), seen.push(key)),
{
    let after = counts.push((key, 1usize));
    let more = seen.push(key);
    assert(more.drop_last() =~= seen);
    lemma_occurrences_zero(seen, key);
    if seen.contains(key) {
        let k = choose|k: int| 0 <= k < seen.len() && seen[k] == key;
        assert(has_key(counts, seen[k]));
    }
    assert forall|i: int, j: int| 0 <= i < j < after.len() implies (#[trigger] after[i]).0 != (
    #[trigger] after[j]).0 by {
        if j == counts.len() {
            assert(counts[i].0 != key);
        }
    }
    assert forall|i: int| 0 <= i < after.len() implies (#[trigger] after[i]).1 == occurrences(
        more,
        after[i].0,
    ) && after[i].1 >= 1 by {
        if i < counts.len() {
            assert(counts[i].0 != key);
        }
    }
    assert forall|k: int| 0 <= k < more.len() implies has_key(after, #[trigger] more[k]) by {
        if k < seen.len() {
            assert(has_key(counts, seen[k]));
            let i = choose|i: int| 0 <= i < counts.len() && (#[trigger] counts[i]).0 == seen[k];
            assert(after[i].0 == more[k]);
        } else {
            assert(after[counts.len() as int].0 == more[k]);
        }
    }
}

/// The keys of a tally list each counted key once.
proof fn lemma_tally_names<K>(counts: Seq<(K, usize)>, keys: Seq<K>)
    requires
        is_tally(counts, keys),
    ensures
        lists_once(counts.map_values(|p: (K, usize)| p.0), keys),
{
    let names = counts.map_values(|p: (K, usize)| p.0);
    assert forall|i: int| 0 <= i < names.len() implies keys.contains(#[trigger] names[i]) by {
        lemma_occurrences_zero(keys, counts[i].0);
    }
    assert forall|k: int| 0 <= k < keys.len() implies names.contains(#[trigger] keys[k]) by {
        assert(has_key(counts, keys[k]));
        let i = choose|i: int| 0 <= i < counts.len() && (#[trigger] counts[i]).0 == keys[k];
        assert(names[i] == keys[k]);
    }
}

/// Counts one more entry of `level`.
fn bump_level(counts: &mut Vec<(LogLevel, usize)>, level: LogLevel, Ghost(seen): Ghost<Seq<LogLevel>>)
    requires
        is_tally(old(counts)@, seen),
        seen.len() < usize::MAX,
    ensures
        is_tally(final(counts)@, seen.push(level)),
{
    let n: usize = counts.len();
    let mut j: usize = 0;
    while j < n
        invariant
            j <= n,
            n == counts@.len(),
            counts@ == old(counts)@,
            is_tally(counts@, seen),
            seen.len() < usize::MAX,
            forall|i: int| 0 <= i < j ==> (#[trigger] counts@[i]).0 != level,
        decreases n - j,
    {
        if counts[j].0 == level {
            proof {
                lemma_occurrences_bound(seen, level);
                lemma_tally_bump(counts@, seen, level, j as int);
            }
            let c: usize = counts[j].1;
            counts[j] = (level, c + 1);
            return ;
        }
        j += 1;
    }
    proof {
        lemma_tally_new(counts@, seen, level);
    }
    counts.push((level, 1));
}

/// Counts one more entry of `service`.
fn bump_service(counts: &mut Vec<(String, usize)>, service: &String, Ghost(seen): Ghost<Seq<Seq<char>>>)
    requires
        is_tally(named_counts_view(old(counts)@), seen),
        seen.len() < usize::MAX,
    ensures
        is_tally(named_counts_view(final(counts)@), seen.push(service@)),
{
    let ghost before = named_counts_view(counts@);
    let n: usize = counts.len();
    let mut j: usize = 0;
    while j < n
        invariant
            j <= n,
            n == counts@.len(),
            counts@ == old(counts)@,
            before == named_counts_view(counts@),
            is_tally(before, seen),
            seen.len() < usize::MAX,
            forall|i: int| 0 <= i < j ==> (#[trigger] before[i]).0 != service@,
        decreases n - j,
    {
        assert(before[j as int] == (counts@[j as int].0@, counts@[j as int].1));
        if same_text(counts[j].0.as_str(), service.as_str()) {
            proof {
                lemma_occurrences_bound(seen, service@);
                lemma_tally_bump(before, seen, service@, j as int);
            }
            let c: usize = counts[j].1;
            counts[j] = (service.clone(), c + 1);
            assert(named_counts_view(counts@) =~= before.update(j as int, (service@, (c + 1) as usize)));
            return ;
        }
        j += 1;
    }
    proof {
        lemma_tally_new(before, seen, service@);
    }
    counts.push((service.clone(), 1));
    assert(named_counts_view(counts@) =~= before.push((service@, 1usize)));
}

impl LogAnalyzer {
    /// Counts the entries: all of them, by level, and by service, and lists
    /// the services that occur.
    pub fn generate_report(&self) -> (r: LogReport)
        ensures
            r.reports(self@),
    {
        let ghost levels = levels_of(self@);
        let ghost services = services_of(self@);
        let n: usize = self.log_entries.len();
        let mut level_counts: Vec<(LogLevel, usize)> = Vec::new();
        let mut service_counts: Vec<(String, usize)> = Vec::new();
        let mut i: usize = 0;
        proof {
            assert(named_counts_view(service_counts@) =~= Seq::<(Seq<char>, usize)>::empty());
        }
        while i < n
            invariant
                i <= n,
                n == self.log_entries@.len(),
                levels == levels_of(self@),
                services == services_of(self@),
                is_tally(level_counts@, levels.take(i as int)),
                is_tally(named_counts_view(service_counts@), services.take(i as int)),
            decreases n - i,
        {
            let entry = &self.log_entries[i];
            proof {
                assert(self@[i as int] == entry@);
                assert(levels.take(i + 1) =~= levels.take(i as int).push(entry.level));
                assert(services.take(i + 1) =~= services.take(i as int).push(entry.service@));
            }
            bump_level(&mut level_counts, entry.level, Ghost(levels.take(i as int)));
            bump_service(&mut service_counts, &entry.service, Ghost(services.take(i as int)));
            i += 1;
        }
        proof {
            assert(levels.take(n as int) =~= levels);
            assert(services.take(n as int) =~= services);
        }
        let m: usize = service_counts.len();
        let mut unique_services: Vec<String> = Vec::new();
        let mut k: usize = 0;
        while k < m
            invariant
                k <= m,
                m == service_counts@.len(),
                unique_services@.len() == k,
                forall|j: int| 0 <= j < k ==> (#[trigger] unique_services@[j])@ == service_counts@[j].0@,
            decreases m - k,
        {
            unique_services.push(service_counts[k].0.clone());
            k += 1;
        }
        proof {
            lemma_tally_names(named_counts_view(service_counts@), services);
            assert(strs_view(unique_services@) =~= named_counts_view(service_counts@).map_values(
                |p: (Seq<char>, usize)| p.0,
            ));
        }
        LogReport { total_entries: n, level_counts, service_counts, unique_services }
    }
}

} // verus!
