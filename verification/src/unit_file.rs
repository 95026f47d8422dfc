//! The INI-like unit file format: sections `[Name]` holding `key = value` lines,
//! where a key may carry several values, kept in the order they were read.

use vstd::prelude::*;
use crate::text::{is_ws, trim_start, trim_end, trim, find_char, trim_str, chars_of, find_char_in, lemma_find_char};

verus! {

/// The values of one key, in the order they were read.
pub type ValuesModel = Seq<Seq<char>>;

/// One section: each key with its values.
pub type SectionModel = Map<Seq<char>, ValuesModel>;

/// A whole unit file: each section name with its section.
pub type UnitModel = Map<Seq<char>, SectionModel>;

/// The map that an association list denotes; a later pair wins over an earlier one.
pub open spec fn alist_map<V>(s: Seq<(Seq<char>, V)>) -> Map<Seq<char>, V>
    decreases s.len(),
{
    if s.len() == 0 {
        Map::empty()
    } else {
        alist_map(s.drop_last()).insert(s.last().0, s.last().1)
    }
}

/// No key occurs twice in the association list.
pub open spec fn keys_unique<V>(s: Seq<(Seq<char>, V)>) -> bool {
    forall|i: int, j: int| 0 <= i < j < s.len() ==> s[i].0 != s[j].0
}

/// The views of a sequence of strings.
pub open spec fn strings_view(v: Seq<String>) -> Seq<Seq<char>> {
    v.map_values(|s: String| s@)
}

/// A line that is blank or a `;`/`#` comment once trimmed.
pub open spec fn is_skipped(t: Seq<char>) -> bool {
    t.len() == 0 || t[0] == ';' || t[0] == '#'
}

/// A trimmed line of the form `[...]`.
pub open spec fn is_header(t: Seq<char>) -> bool {
    t.len() >= 2 && t[0] == '[' && t.last() == ']'
}

/// The name between the brackets of a header line.
pub open spec fn header_name(t: Seq<char>) -> Seq<char> {
    t.subrange(1, t.len() - 1)
}

/// The values recorded so far for `key` in section `m` (none when the key is new).
pub open spec fn values_of(m: SectionModel, key: Seq<char>) -> ValuesModel {
    if m.dom().contains(key) {
        m[key]
    } else {
        Seq::empty()
    }
}

/// One line of the parse: the sections read so far and the current section.
/// A header starts (or restarts, emptied) its section and makes it current;
/// `key=value` inside a section adds the trimmed value to the trimmed key;
/// blank lines, comments, and anything else are ignored.
pub open spec fn parse_step(st: (UnitModel, Option<Seq<char>>), raw: Seq<char>) -> (
    UnitModel,
    Option<Seq<char>>,
) {
    let t = trim(raw);
    if is_skipped(t) {
        st
    } else if is_header(t) {
        (st.0.insert(header_name(t), Map::empty()), Some(header_name(t)))
    } else {
        match (st.1, find_char(t, '=')) {
            (Some(sec), Some(k)) => {
                let key = trim(t.subrange(0, k as int));
                let value = trim(t.skip(k + 1 as int));
                let m = st.0[sec];
                (st.0.insert(sec, m.insert(key, values_of(m, key).push(value))), st.1)
            },
            _ => st,
        }
    }
}

/// The parse state after reading `lines` in order, starting from `st`.
pub open spec fn parse_from(st: (UnitModel, Option<Seq<char>>), lines: Seq<Seq<char>>) -> (
    UnitModel,
    Option<Seq<char>>,
)
    decreases lines.len(),
{
    if lines.len() == 0 {
        st
    } else {
        parse_step(parse_from(st, lines.drop_last()), lines.last())
    }
}

/// The parse state after reading `lines` in order, from an empty file.
pub open spec fn parse_state(lines: Seq<Seq<char>>) -> (UnitModel, Option<Seq<char>>) {
    parse_from((Map::empty(), None), lines)
}

/// Reading `a` then `b` is reading `a + b`.
pub proof fn lemma_parse_from_concat(st: (UnitModel, Option<Seq<char>>), a: Seq<Seq<char>>, b: Seq<Seq<char>>)
    ensures
        parse_from(st, a + b) == parse_from(parse_from(st, a), b),
    decreases b.len(),
{
    if b.len() == 0 {
        assert(a + b =~= a);
    } else {
        assert((a + b).drop_last() =~= a + b.drop_last());
        assert((a + b).last() == b.last());
        lemma_parse_from_concat(st, a, b.drop_last());
    }
}

/// Blank lines and `;`/`#` comment lines do not change what a unit file says:
/// adding one anywhere leaves the parsed sections as they were.
pub proof fn law_comment_lines_ignored(before: Seq<Seq<char>>, line: Seq<char>, after: Seq<Seq<char>>)
    requires
        is_skipped(trim(line)),
    ensures
        unit_model(before + seq![line] + after) == unit_model(before + after),
{
    let init: (UnitModel, Option<Seq<char>>) = (Map::empty(), None);
    lemma_parse_from_concat(init, before + seq![line], after);
    lemma_parse_from_concat(init, before, seq![line]);
    lemma_parse_from_concat(init, before, after);
    let s0 = parse_from(init, before);
    assert(seq![line].drop_last() =~= Seq::<Seq<char>>::empty());
    assert(parse_from(s0, Seq::<Seq<char>>::empty()) == s0);
    assert(parse_step(s0, line) == s0);
    assert(parse_from(s0, seq![line]) == s0);
}

/// The sections of a unit file with the given lines.
pub open spec fn unit_model(lines: Seq<Seq<char>>) -> UnitModel {
    parse_state(lines).0
}

/// A line that, trimmed, is a section header.
pub open spec fn starts_section(raw: Seq<char>) -> bool {
    is_header(trim(raw))
}

/// The name of the section that a header line starts.
pub open spec fn section_of(raw: Seq<char>) -> Seq<char> {
    header_name(trim(raw))
}

/// Some line of `lines` is a section header.
pub open spec fn any_header(lines: Seq<Seq<char>>) -> bool {
    exists|i: int| 0 <= i < lines.len() && #[trigger] starts_section(lines[i])
}

/// Some line of `lines` is a header of section `s`.
pub open spec fn has_header_named(lines: Seq<Seq<char>>, s: Seq<char>) -> bool {
    exists|i: int| 0 <= i < lines.len() && #[trigger] starts_section(lines[i]) && section_of(lines[i]) == s
}

/// The key/value pair of one line added to a section's contents: a blank or
/// comment line, or a line without `=`, adds nothing.
pub open spec fn body_step(m: SectionModel, raw: Seq<char>) -> SectionModel {
    let t = trim(raw);
    if is_skipped(t) {
        m
    } else {
        match find_char(t, '=') {
            Some(k) => {
                let key = trim(t.subrange(0, k as int));
                m.insert(key, values_of(m, key).push(trim(t.skip(k + 1 as int))))
            },
            None => m,
        }
    }
}

/// The contents of a section whose header is followed by `lines`: the
/// key/value pairs of the lines before the next header, in order.
pub open spec fn section_body(lines: Seq<Seq<char>>) -> SectionModel
    decreases lines.len(),
{
    if lines.len() == 0 {
        Map::empty()
    } else if any_header(lines.drop_last()) || starts_section(lines.last()) {
        section_body(lines.drop_last())
    } else {
        body_step(section_body(lines.drop_last()), lines.last())
    }
}

proof fn lemma_any_header_push(b: Seq<Seq<char>>, x: Seq<char>, s: Seq<char>)
    ensures
        any_header(b.push(x)) == (any_header(b) || starts_section(x)),
        has_header_named(b.push(x), s) == (has_header_named(b, s) || (starts_section(x)
            && section_of(x) == s)),
{
    let c = b.push(x);
    if any_header(b) {
        let i = choose|i: int| 0 <= i < b.len() && #[trigger] starts_section(b[i]);
        assert(c[i] == b[i]);
    }
    if starts_section(x) {
        assert(c[b.len() as int] == x);
    }
    if any_header(c) {
        let i = choose|i: int| 0 <= i < c.len() && #[trigger] starts_section(c[i]);
        if i < b.len() {
            assert(c[i] == b[i]);
        }
    }
    if has_header_named(b, s) {
        let i = choose|i: int| 0 <= i < b.len() && #[trigger] starts_section(b[i]) && section_of(b[i]) == s;
        assert(c[i] == b[i]);
    }
    if has_header_named(c, s) {
        let i = choose|i: int| 0 <= i < c.len() && #[trigger] starts_section(c[i]) && section_of(c[i]) == s;
        if i < b.len() {
            assert(c[i] == b[i]);
        }
    }
}

/// What the parse state says: the current section is the last header's, and
/// the sections present are exactly those that some header names.
proof fn lemma_parse_state_shape(lines: Seq<Seq<char>>)
    ensures
        parse_state(lines).1 is None <==> !any_header(lines),
        parse_state(lines).1 matches Some(c) ==> parse_state(lines).0.dom().contains(c),
        forall|s: Seq<char>| #[trigger]
            parse_state(lines).0.dom().contains(s) <==> has_header_named(lines, s),
    decreases lines.len(),
{
    let init: (UnitModel, Option<Seq<char>>) = (Map::empty(), None);
    if lines.len() > 0 {
        let b = lines.drop_last();
        let x = lines.last();
        assert(b.push(x) =~= lines);
        lemma_parse_state_shape(b);
        lemma_any_header_push(b, x, Seq::empty());
        assert forall|s: Seq<char>| #[trigger]
            parse_state(lines).0.dom().contains(s) <==> has_header_named(lines, s) by {
            lemma_any_header_push(b, x, s);
            assert(parse_state(b).0.dom().contains(s) <==> has_header_named(b, s));
        }
    }
}

/// The sections of a unit file are exactly those named by some header line.
pub proof fn law_sections_are_the_headers(lines: Seq<Seq<char>>, s: Seq<char>)
    ensures
        unit_model(lines).dom().contains(s) <==> has_header_named(lines, s),
{
    lemma_parse_state_shape(lines);
}

proof fn lemma_section_body_after(st0: (UnitModel, Option<Seq<char>>), b: Seq<Seq<char>>, s: Seq<char>)
    requires
        st0.0.dom().contains(s),
        st0.0[s] == Map::<Seq<char>, ValuesModel>::empty(),
        st0.1 == Some(s),
        !has_header_named(b, s),
    ensures
        parse_from(st0, b).0.dom().contains(s),
        parse_from(st0, b).0[s] == section_body(b),
        any_header(b) ==> parse_from(st0, b).1 != Some(s),
        !any_header(b) ==> parse_from(st0, b).1 == Some(s),
    decreases b.len(),
{
    if b.len() > 0 {
        let d = b.drop_last();
        let x = b.last();
        assert(d.push(x) =~= b);
        lemma_any_header_push(d, x, s);
        lemma_section_body_after(st0, d, s);
    } else {
        assert(section_body(b) == Map::<Seq<char>, ValuesModel>::empty());
    }
}

/// A section holds what follows its last header: when a header of section `s`
/// is followed by lines `after` that hold no other header of `s`, the section
/// `s` of the file is the key/value pairs of `after` up to its first header.
pub proof fn law_section_is_body_after_last_header(
    before: Seq<Seq<char>>,
    header: Seq<char>,
    after: Seq<Seq<char>>,
    s: Seq<char>,
)
    requires
        starts_section(header),
        section_of(header) == s,
        !has_header_named(after, s),
    ensures
        unit_model(before + seq![header] + after).dom().contains(s),
        unit_model(before + seq![header] + after)[s] == section_body(after),
{
    let init: (UnitModel, Option<Seq<char>>) = (Map::empty(), None);
    let pre = before + seq![header];
    lemma_parse_from_concat(init, pre, after);
    assert(pre.drop_last() =~= before);
    assert(pre.last() == header);
    let st0 = parse_from(init, pre);
    assert(st0 == parse_step(parse_from(init, before), header));
    assert(!is_skipped(trim(header)));
    lemma_section_body_after(st0, after, s);
}

/// A text without whitespace at either end is its own trim.
proof fn lemma_trim_of_trimmed(x: Seq<char>)
    requires
        x.len() == 0 || (!is_ws(x[0]) && !is_ws(x.last())),
    ensures
        trim(x) == x,
{
    assert(trim_start(x) == x);
    assert(trim_end(x) == x);
}

/// `find_char` finds the first occurrence.
proof fn lemma_find_char_first(s: Seq<char>, c: char, i: int)
    requires
        0 <= i < s.len(),
        s[i] == c,
        forall|j: int| 0 <= j < i ==> s[j] != c,
    ensures
        find_char(s, c) == Some(i as nat),
    decreases i,
{
    if i > 0 {
        lemma_find_char_first(s.drop_first(), c, i - 1);
    }
}

/// No whitespace at either end.
pub open spec fn is_trimmed(x: Seq<char>) -> bool {
    x.len() == 0 || (!is_ws(x[0]) && !is_ws(x.last()))
}

/// A `key=value` line (key without `=`, key and value without whitespace at
/// their ends, the key not starting with `;`, `#` or `[`) read inside section `s`
/// appends the whole value (everything after the first `=`, whatever it holds)
/// to the values of the key in that section, and changes nothing else.
pub proof fn law_key_value_line_adds_its_value(lines: Seq<Seq<char>>, s: Seq<char>, k: Seq<char>, v: Seq<char>)
    requires
        parse_state(lines).1 == Some(s),
        forall|i: int| 0 <= i < k.len() ==> k[i] != '=',
        is_trimmed(k),
        is_trimmed(v),
        k.len() == 0 || (k[0] != ';' && k[0] != '#' && k[0] != '['),
    ensures
        unit_model(lines.push(k + seq!['='] + v)) == unit_model(lines).insert(
            s,
            unit_model(lines)[s].insert(k, values_of(unit_model(lines)[s], k).push(v)),
        ),
        unit_model(lines.push(k + seq!['='] + v)).dom().contains(s),
        unit_model(lines.push(k + seq!['='] + v))[s][k] == values_of(unit_model(lines)[s], k).push(v),
{
    let l = k + seq!['='] + v;
    assert(lines.push(l).drop_last() =~= lines);
    assert(l[k.len() as int] == '=');
    assert(!is_ws('='));
    if k.len() > 0 {
        assert(l[0] == k[0]);
    }
    if v.len() > 0 {
        assert(l.last() == v.last());
    }
    lemma_trim_of_trimmed(l);
    lemma_trim_of_trimmed(k);
    lemma_trim_of_trimmed(v);
    assert(!is_skipped(l));
    assert(!is_header(l)) by {
        if k.len() == 0 {
            assert(l[0] == '=');
        }
    }
    assert forall|j: int| 0 <= j < k.len() implies l[j] != '=' by {
        assert(l[j] == k[j]);
    }
    lemma_find_char_first(l, '=', k.len() as int);
    assert(l.subrange(0, k.len() as int) =~= k);
    assert(l.skip(k.len() + 1 as int) =~= v);
    lemma_parse_state_shape(lines);
}

/// In a file that is a section header `[s]` followed by one `key=value` line
/// (as in `law_key_value_line_adds_its_value`), section `s` maps the key to the
/// whole value, and to nothing else.
pub proof fn law_single_pair(s: Seq<char>, k: Seq<char>, v: Seq<char>)
    requires
        forall|i: int| 0 <= i < k.len() ==> k[i] != '=',
        is_trimmed(k),
        is_trimmed(v),
        k.len() == 0 || (k[0] != ';' && k[0] != '#' && k[0] != '['),
    ensures
        unit_model(seq![seq!['['] + s + seq![']'], k + seq!['='] + v])[s] == Map::<
            Seq<char>,
            ValuesModel,
        >::empty().insert(k, seq![v]),
{
    let h = seq!['['] + s + seq![']'];
    let one = seq![h];
    assert(h[0] == '[' && h.last() == ']');
    lemma_trim_of_trimmed(h);
    assert(header_name(h) =~= s);
    assert(one.drop_last() =~= Seq::<Seq<char>>::empty());
    assert(parse_state(one).1 == Some(s));
    law_key_value_line_adds_its_value(one, s, k, v);
    assert(one.push(k + seq!['='] + v) =~= seq![h, k + seq!['='] + v]);
    assert(Seq::<Seq<char>>::empty().push(v) =~= seq![v]);
}

/// The entry at index `i` is in the map under its key (keys being unique).
pub proof fn lemma_alist_get<V>(s: Seq<(Seq<char>, V)>, i: int)
    requires
        keys_unique(s),
        0 <= i < s.len(),
    ensures
        alist_map(s).dom().contains(s[i].0),
        alist_map(s)[s[i].0] == s[i].1,
    decreases s.len(),
{
    if i < s.len() - 1 {
        lemma_alist_get(s.drop_last(), i);
        assert(s[i].0 != s.last().0);
    }
}

/// A key that no entry carries is not in the map.
pub proof fn lemma_alist_absent<V>(s: Seq<(Seq<char>, V)>, k: Seq<char>)
    requires
        forall|i: int| 0 <= i < s.len() ==> s[i].0 != k,
    ensures
        !alist_map(s).dom().contains(k),
    decreases s.len(),
{
    if s.len() > 0 {
        lemma_alist_absent(s.drop_last(), k);
    }
}

/// Replacing the value of the entry at index `i` replaces it in the map.
pub proof fn lemma_alist_update<V>(s: Seq<(Seq<char>, V)>, i: int, v: V)
    requires
        keys_unique(s),
        0 <= i < s.len(),
    ensures
        alist_map(s.update(i, (s[i].0, v))) == alist_map(s).insert(s[i].0, v),
        keys_unique(s.update(i, (s[i].0, v))),
    decreases s.len(),
{
    let u = s.update(i, (s[i].0, v));
    if i == s.len() - 1 {
        assert(u.drop_last() =~= s.drop_last());
        assert(alist_map(u) =~= alist_map(s).insert(s[i].0, v));
    } else {
        assert(u.drop_last() =~= s.drop_last().update(i, (s[i].0, v)));
        lemma_alist_update(s.drop_last(), i, v);
        assert(s[i].0 != s.last().0);
        assert(alist_map(u) =~= alist_map(s).insert(s[i].0, v));
    }
}

/// One key of a section with its values.
pub struct UnitEntry {
    key: String,
    values: Vec<String>,
}

/// One `[Name]` section with its keys, in the order they first appeared.
pub struct UnitSection {
    name: String,
    entries: Vec<UnitEntry>,
}

/// A parsed unit file: its sections, in the order they first appeared.
pub struct UnitFile {
    sections: Vec<UnitSection>,
}

impl UnitEntry {
    /// The key with the views of its values.
    pub closed spec fn pair(self) -> (Seq<char>, ValuesModel) {
        (self.key@, strings_view(self.values@))
    }
}

impl UnitSection {
    /// The entries as an association list.
    pub closed spec fn pairs(self) -> Seq<(Seq<char>, ValuesModel)> {
        self.entries@.map_values(|e: UnitEntry| e.pair())
    }

    /// The section's keys are distinct.
    pub closed spec fn wf(self) -> bool {
        keys_unique(self.pairs())
    }

    /// The section's keys with their values.
    pub closed spec fn model(self) -> SectionModel {
        alist_map(self.pairs())
    }

    /// The section's name.
    pub closed spec fn spec_name(self) -> Seq<char> {
        self.name@
    }

    /// An empty section called `name`.
    fn empty(name: String) -> (r: UnitSection)
        ensures
            r.wf(),
            r.model() == Map::<Seq<char>, ValuesModel>::empty(),
            r.spec_name() == name@,
    {
        let r = UnitSection { name, entries: Vec::new() };
        assert(r.pairs() =~= Seq::<(Seq<char>, ValuesModel)>::empty());
        r
    }

    /// The index of the entry for `key`, if there is one.
    fn find_key(&self, key: &String) -> (r: Option<usize>)
        ensures
            r matches Some(j) ==> j < self.pairs().len() && self.pairs()[j as int].0 == key@,
            r is None ==> forall|j: int| 0 <= j < self.pairs().len() ==> self.pairs()[j].0 != key@,
    {
        let mut j: usize = 0;
        while j < self.entries.len()
            invariant
                j <= self.entries.len(),
                forall|l: int| 0 <= l < j ==> self.pairs()[l].0 != key@,
            decreases self.entries.len() - j,
        {
            if self.entries[j].key == *key {
                return Some(j);
            }
            j = j + 1;
        }
        None
    }

    /// Appends `value` to the values of `key`, adding the key when it is new.
    fn add_value(&mut self, key: String, value: String)
        requires
            old(self).wf(),
        ensures
            final(self).wf(),
            final(self).spec_name() == old(self).spec_name(),
            final(self).model() == old(self).model().insert(
                key@,
                values_of(old(self).model(), key@).push(value@),
            ),
    {
        let ghost old_pairs = self.pairs();
        match self.find_key(&key) {
            Some(j) => {
                proof {
                    lemma_alist_get(old_pairs, j as int);
                }
                let mut e = UnitEntry { key: String::new(), values: Vec::new() };
                self.entries.set_and_swap(j, &mut e);
                let ghost old_values = e.values@;
                e.values.push(value);
                assert(strings_view(e.values@) =~= strings_view(old_values).push(value@));
                let ghost new_val = e.pair().1;
                self.entries.set_and_swap(j, &mut e);
                proof {
                    assert(self.pairs() =~= old_pairs.update(j as int, (old_pairs[j as int].0, new_val)));
                    lemma_alist_update(old_pairs, j as int, new_val);
                }
            },
            None => {
                proof {
                    lemma_alist_absent(old_pairs, key@);
                }
                let mut values: Vec<String> = Vec::new();
                values.push(value);
                let e = UnitEntry { key, values };
                assert(strings_view(e.values@) =~= Seq::<Seq<char>>::empty().push(value@));
                self.entries.push(e);
                assert(self.pairs() =~= old_pairs.push(e.pair()));
                assert(self.pairs().drop_last() =~= old_pairs);
            },
        }
    }
}

impl UnitFile {
    /// The sections as an association list.
    pub closed spec fn pairs(self) -> Seq<(Seq<char>, SectionModel)> {
        self.sections@.map_values(|s: UnitSection| (s.name@, s.model()))
    }

    /// Section names are distinct and every section is well formed.
    pub closed spec fn wf(self) -> bool {
        &&& keys_unique(self.pairs())
        &&& forall|i: int| 0 <= i < self.sections@.len() ==> #[trigger] self.sections@[i].wf()
    }

    /// The number of distinct sections.
    pub closed spec fn spec_len(self) -> nat {
        self.sections@.len()
    }

    /// The name of the section at position `i`.
    pub closed spec fn name_at(self, i: int) -> Seq<char> {
        self.sections@[i].name@
    }

    /// The index of the section called `name`, if there is one.
    fn find_section(&self, name: &String) -> (r: Option<usize>)
        ensures
            r matches Some(i) ==> i < self.spec_len() && self.name_at(i as int) == name@,
            r is None ==> forall|i: int| 0 <= i < self.spec_len() ==> self.name_at(i) != name@,
            r matches Some(i) ==> self.pairs()[i as int].0 == name@,
            r is None ==> forall|i: int| 0 <= i < self.pairs().len() ==> self.pairs()[i].0 != name@,
    {
        let mut i: usize = 0;
        while i < self.sections.len()
            invariant
                i <= self.sections.len(),
                forall|l: int| 0 <= l < i ==> self.name_at(l) != name@,
            decreases self.sections.len() - i,
        {
            if self.sections[i].name == *name {
                return Some(i);
            }
            i = i + 1;
        }
        assert forall|l: int| 0 <= l < self.pairs().len() implies self.pairs()[l].0 != name@ by {
            assert(self.pairs()[l].0 == self.name_at(l));
        }
        None
    }

    /// Starts section `name` afresh (emptying it if it was seen before); returns its index.
    fn start_section(&mut self, name: String) -> (idx: usize)
        requires
            old(self).wf(),
        ensures
            final(self).wf(),
            final(self)@ == old(self)@.insert(name@, Map::empty()),
            idx < final(self).spec_len(),
            final(self).name_at(idx as int) == name@,
    {
        let ghost old_pairs = self.pairs();
        match self.find_section(&name) {
            Some(i) => {
                let s = UnitSection::empty(name);
                self.sections.set(i, s);
                proof {
                    assert(self.pairs() =~= old_pairs.update(i as int, (old_pairs[i as int].0, Map::empty())));
                    lemma_alist_update(old_pairs, i as int, Map::empty());
                    assert forall|l: int| 0 <= l < self.sections@.len() implies #[trigger] self.sections@[l].wf() by {
                        if l != i {
                            assert(self.sections@[l] == old(self).sections@[l]);
                        }
                    }
                }
                i
            },
            None => {
                let s = UnitSection::empty(name);
                let ghost sp = (s.name@, s.model());
                self.sections.push(s);
                proof {
                    assert(self.pairs() =~= old_pairs.push(sp));
                    assert(self.pairs().drop_last() =~= old_pairs);
                    assert forall|a: int, b: int| 0 <= a < b < self.pairs().len() implies self.pairs()[a].0 != self.pairs()[b].0 by {
                        if b == old_pairs.len() {
                            assert(old(self).name_at(a) != name@);
                        }
                    }
                    assert forall|l: int| 0 <= l < self.sections@.len() implies #[trigger] self.sections@[l].wf() by {
                        if l < old_pairs.len() {
                            assert(self.sections@[l] == old(self).sections@[l]);
                        }
                    }
                }
                self.sections.len() - 1
            },
        }
    }

    /// Appends `value` to `key` in the section at index `ci`.
    fn add_value(&mut self, ci: usize, key: String, value: String)
        requires
            old(self).wf(),
            ci < old(self).spec_len(),
        ensures
            final(self).wf(),
            final(self).spec_len() == old(self).spec_len(),
            forall|i: int| 0 <= i < old(self).spec_len() ==> final(self).name_at(i) == old(self).name_at(i),
            final(self)@ == old(self)@.insert(
                old(self).name_at(ci as int),
                old(self)@[old(self).name_at(ci as int)].insert(
                    key@,
                    values_of(old(self)@[old(self).name_at(ci as int)], key@).push(value@),
                ),
            ),
    {
        let ghost old_pairs = self.pairs();
        proof {
            lemma_alist_get(old_pairs, ci as int);
        }
        let mut s = UnitSection { name: String::new(), entries: Vec::new() };
        self.sections.set_and_swap(ci, &mut s);
        assert(s.wf());
        s.add_value(key, value);
        let ghost new_model = s.model();
        self.sections.set_and_swap(ci, &mut s);
        proof {
            assert(self.pairs() =~= old_pairs.update(ci as int, (old_pairs[ci as int].0, new_model)));
            lemma_alist_update(old_pairs, ci as int, new_model);
            assert forall|l: int| 0 <= l < self.sections@.len() implies #[trigger] self.sections@[l].wf() by {
                if l != ci {
                    assert(self.sections@[l] == old(self).sections@[l]);
                }
            }
            assert forall|i: int| 0 <= i < old(self).spec_len() implies self.name_at(i) == old(self).name_at(i) by {
                if i != ci {
                    assert(self.sections@[i] == old(self).sections@[i]);
                }
            }
        }
    }
}

impl UnitFile {
    /// The values of `key` in section `section`, when the section has that key.
    pub fn section_values(&self, section: &str, key: &str) -> (r: Option<&Vec<String>>)
        requires
            self.wf(),
        ensures
            r is Some <==> (self@.dom().contains(section@) && self@[section@].dom().contains(
                key@,
            )),
            r matches Some(v) ==> strings_view(v@) == self@[section@][key@],
    {
        let name = String::from_str(section);
        let k = String::from_str(key);
        match self.find_section(&name) {
            None => {
                proof {
                    lemma_alist_absent(self.pairs(), section@);
                }
                None
            },
            Some(i) => {
                proof {
                    lemma_alist_get(self.pairs(), i as int);
                }
                let sec = &self.sections[i];
                assert(sec.wf());
                match sec.find_key(&k) {
                    None => {
                        proof {
                            lemma_alist_absent(sec.pairs(), key@);
                        }
                        None
                    },
                    Some(j) => {
                        proof {
                            lemma_alist_get(sec.pairs(), j as int);
                        }
                        Some(&sec.entries[j].values)
                    },
                }
            },
        }
    }

    /// Whether the file has a section called `section`.
    pub fn has_section(&self, section: &str) -> (r: bool)
        requires
            self.wf(),
        ensures
            r == self@.dom().contains(section@),
    {
        let name = String::from_str(section);
        match self.find_section(&name) {
            None => {
                proof {
                    lemma_alist_absent(self.pairs(), section@);
                }
                false
            },
            Some(i) => {
                proof {
                    lemma_alist_get(self.pairs(), i as int);
                }
                true
            },
        }
    }
}

/// Parses the lines of a unit file: a `[Name]` line starts (or restarts, emptied)
/// a section; inside a section a `key=value` line adds the trimmed value to the
/// trimmed key; blank lines and lines starting with `;` or `#` are skipped, as is
/// anything else.
pub fn parse_unit_file(lines: &Vec<String>) -> (r: UnitFile)
    ensures
        r.wf(),
        r@ == unit_model(strings_view(lines@)),
{
    let mut file = UnitFile { sections: Vec::new() };
    let mut current: Option<usize> = None;
    let ghost ls = strings_view(lines@);
    assert(file.pairs() =~= Seq::<(Seq<char>, SectionModel)>::empty());
    assert(ls.take(0) =~= Seq::<Seq<char>>::empty());
    let mut i: usize = 0;
    while i < lines.len()
        invariant
            ls == strings_view(lines@),
            i <= lines.len(),
            file.wf(),
            file@ == parse_state(ls.take(i as int)).0,
            parse_state(ls.take(i as int)).1 matches Some(n) ==> (current matches Some(ci) && ci
                < file.spec_len() && file.name_at(ci as int) == n),
            parse_state(ls.take(i as int)).1 is None ==> current is None,
        decreases lines.len() - i,
    {
        proof {
            assert(ls.take(i + 1).drop_last() =~= ls.take(i as int));
            assert(ls.take(i + 1).last() == lines@[i as int]@);
            if let Some(ci) = current {
                lemma_alist_get(file.pairs(), ci as int);
            }
        }
        let t = trim_str(lines[i].as_str());
        let cs = chars_of(t.as_str());
        let n = cs.len();
        if n == 0 || cs[0] == ';' || cs[0] == '#' {
        } else if n >= 2 && cs[0] == '[' && cs[n - 1] == ']' {
            let name = String::from_str(t.as_str().substring_char(1, n - 1));
            let idx = file.start_section(name);
            current = Some(idx);
        } else {
            match current {
                Some(ci) => {
                    match find_char_in(t.as_str(), '=') {
                        Some(k) => {
                            proof {
                                lemma_find_char(t@, '=');
                            }
                            let key = trim_str(t.as_str().substring_char(0, k));
                            let value = trim_str(t.as_str().substring_char(k + 1, n));
                            assert(t@.subrange(k + 1, n as int) =~= t@.skip(k + 1 as int));
                            file.add_value(ci, key, value);
                        },
                        None => {},
                    }
                },
                None => {},
            }
        }
        i = i + 1;
    }
    assert(ls.take(lines.len() as int) =~= ls);
    file
}

/// The tags of a unit: the values of `Tag` in its `[X-extra]` section hold `tag`.
pub open spec fn has_tag(m: UnitModel, tag: Seq<char>) -> bool {
    &&& m.dom().contains("X-extra"@)
    &&& m["X-extra"@].dom().contains("Tag"@)
    &&& m["X-extra"@]["Tag"@].contains(tag)
}

/// Whether the unit's `[X-extra]` section lists `tag` among its `Tag` values.
pub fn unit_has_tag(unit: &UnitFile, tag: &str) -> (r: bool)
    requires
        unit.wf(),
    ensures
        r == has_tag(unit@, tag@),
{
    match unit.section_values("X-extra", "Tag") {
        None => false,
        Some(tags) => {
            let want = String::from_str(tag);
            let mut i: usize = 0;
            while i < tags.len()
                invariant
                    i <= tags.len(),
                    want@ == tag@,
                    forall|j: int| 0 <= j < i ==> tags@[j]@ != tag@,
                    unit@.dom().contains("X-extra"@),
                    unit@["X-extra"@].dom().contains("Tag"@),
                    strings_view(tags@) == unit@["X-extra"@]["Tag"@],
                decreases tags.len() - i,
            {
                if tags[i] == want {
                    let ghost tv = unit@["X-extra"@]["Tag"@];
                    assert(strings_view(tags@) == tv);
                    assert(tv[i as int] == tag@);
                    assert(tv.contains(tag@));
                    return true;
                }
                i = i + 1;
            }
            assert forall|j: int| 0 <= j < strings_view(tags@).len() implies strings_view(tags@)[j] != tag@ by {}
            false
        },
    }
}

impl View for UnitFile {
    type V = UnitModel;

    closed spec fn view(&self) -> UnitModel {
        alist_map(self.pairs())
    }
}

} // verus!
