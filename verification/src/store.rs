//! The secrets store: one `service:value` entry per line of a text.
use crate::error;
use crate::error::{Error, Problem};
use crate::text;
use vstd::prelude::*;

verus! {

/// One `service:value` line from the secrets store.
#[derive(Debug, Clone, PartialEq, Eq)]
pub struct Entry {
    pub service: String,
    pub value: String,
}

/// What an `Entry` holds.
pub struct Item {
    pub service: Seq<char>,
    pub value: Seq<char>,
}

impl View for Entry {
    type V = Item;

    open spec fn view(&self) -> Item {
        Item { service: self.service@, value: self.value@ }
    }
}

// ---------------------------------------------------------------------------
// Specification
// ---------------------------------------------------------------------------

/// What the entries hold, in their order.
pub open spec fn items(entries: Seq<Entry>) -> Seq<Item> {
    entries.map_values(|e: Entry| e@)
}

/// The entry on `line`, if it holds one: not blank, no `#` comment, and a
/// service name before the first colon.
pub open spec fn line_item(line: Seq<char>) -> Option<Item> {
    let l = text::trimmed(line);
    if l.len() == 0 || l[0] == '#' {
        None
    } else {
        match text::cut(l, ':') {
            Some((service, value)) => if text::trimmed(service).len() == 0 {
                None
            } else {
                Some(Item { service: text::trimmed(service), value: text::trimmed(value) })
            },
            None => None,
        }
    }
}

/// The entries on `lines`, in their order.
pub open spec fn items_on(lines: Seq<Seq<char>>) -> Seq<Item>
    decreases lines.len(),
{
    if lines.len() == 0 {
        seq![]
    } else {
        match line_item(lines.last()) {
            Some(item) => items_on(lines.drop_last()).push(item),
            None => items_on(lines.drop_last()),
        }
    }
}

/// The entries of the store whose text is `store`.
pub open spec fn store_items(store: Seq<char>) -> Seq<Item> {
    items_on(text::lines_of(store))
}

/// The first of `items` for `service`.
pub open spec fn found(items: Seq<Item>, service: Seq<char>) -> Option<Item>
    decreases items.len(),
{
    if items.len() == 0 {
        None
    } else if items[0].service == service {
        Some(items[0])
    } else {
        found(items.skip(1), service)
    }
}

/// Whether `c` may not stand in a service name.
pub open spec fn forbidden(c: char) -> bool {
    c == ':' || text::is_space(c)
}

/// Whether `name` may name a new service: not empty, no colon, no white space.
pub open spec fn name_checked(name: Seq<char>) -> Result<(), Problem<Seq<char>>> {
    if name.len() == 0 {
        Err(Problem::EmptyServiceName)
    } else if exists|i: int| 0 <= i < name.len() && forbidden(#[trigger] name[i]) {
        Err(Problem::InvalidServiceName(name))
    } else {
        Ok(())
    }
}

/// `store` with a line feed after its last line.
pub open spec fn closed_off(store: Seq<char>) -> Seq<char> {
    if store.len() == 0 || store.last() == '\n' {
        store
    } else {
        store.push('\n')
    }
}

/// `store` with one more line for `service` and `value`.
pub open spec fn with_line(store: Seq<char>, service: Seq<char>, value: Seq<char>) -> Seq<char> {
    closed_off(store) + service + seq![':'] + value + seq!['\n']
}

/// Whether `line` holds an entry for `service`.
pub open spec fn is_for(line: Seq<char>, service: Seq<char>) -> bool {
    line_item(line) matches Some(item) && item.service == service
}

/// The lines of `lines` that hold no entry for `service`.
pub open spec fn lines_without(lines: Seq<Seq<char>>, service: Seq<char>) -> Seq<Seq<char>> {
    lines.filter(|line: Seq<char>| !is_for(line, service))
}

/// `lines` with a line feed after each.
pub open spec fn ended(lines: Seq<Seq<char>>) -> Seq<char>
    decreases lines.len(),
{
    if lines.len() == 0 {
        seq![]
    } else {
        ended(lines.drop_last()) + lines.last().push('\n')
    }
}

/// `store` without the lines that hold an entry for `service`; every other
/// line stays.
pub open spec fn without_lines(store: Seq<char>, service: Seq<char>) -> Seq<char> {
    ended(lines_without(text::lines_of(store), service))
}

// ---------------------------------------------------------------------------
// Operations
// ---------------------------------------------------------------------------

/// The entry on `line`, if it holds one.
fn parse_line(line: &[char]) -> (r: Option<Entry>)
    ensures
        match r {
            Some(e) => line_item(line@) == Some(e@),
            None => line_item(line@) is None,
        },
{
    let l = text::trim(line);
    if l.len() == 0 || l[0] == '#' {
        return None;
    }
    match text::split_once(l, ':') {
        Some((service, value)) => {
            let service = text::trim(service);
            if service.len() == 0 {
                return None;
            }
            let value = text::trim(value);
            Some(Entry { service: text::string_of(service), value: text::string_of(value) })
        },
        None => None,
    }
}

/// Parse the secrets file. Blank lines and `#` comments are ignored. Each entry
/// is `service:value`, split at the first colon so `otpauth://` values survive.
pub fn parse_store(text: &str) -> (r: Vec<Entry>)
    ensures
        items(r@) == store_items(text@),
        r@.len() == store_items(text@).len(),
        forall|i: int|
            0 <= i < r@.len() ==> (#[trigger] r@[i]).service@ == store_items(text@)[i].service
                && r@[i].value@ == store_items(text@)[i].value,
{
    let all = text::chars_of(text);
    let lines = text::lines(all.as_slice());
    let ghost views = text::views(lines@);
    let mut r: Vec<Entry> = Vec::new();
    let mut i: usize = 0;
    while i < lines.len()
        invariant
            i <= lines.len(),
            views == text::views(lines@),
            items(r@) == items_on(views.take(i as int)),
        decreases lines.len() - i,
    {
        let ghost before = r@;
        assert(views.take(i + 1).last() == lines@[i as int]@);
        assert(views.take(i + 1).drop_last() == views.take(i as int));
        match parse_line(lines[i]) {
            Some(e) => {
                r.push(e);
                assert(items(r@) == items(before).push(e@));
            },
            None => {},
        }
        i += 1;
    }
    assert(views.take(views.len() as int) == views);
    proof {
        assert forall|i: int| 0 <= i < r@.len() implies (#[trigger] r@[i]).service@ == store_items(
            text@,
        )[i].service && r@[i].value@ == store_items(text@)[i].value by {
            assert(items(r@)[i] == r@[i]@);
        }
    }
    r
}

/// Find the entry whose service name matches exactly; the first one, if there
/// are several.
pub fn find_entry<'a>(entries: &'a [Entry], service: &str) -> (r: Option<&'a Entry>)
    ensures
        match r {
            Some(e) => {
                &&& found(items(entries@), service@) == Some(e@)
                &&& exists|i: int|
                    {
                        &&& 0 <= i < entries@.len()
                        &&& #[trigger] entries@[i] == *e
                        &&& e.service@ == service@
                        &&& forall|j: int| 0 <= j < i ==> entries@[j].service@ != service@
                    }
            },
            None => {
                &&& found(items(entries@), service@) is None
                &&& forall|j: int| 0 <= j < entries@.len() ==> entries@[j].service@ != service@
            },
        },
{
    let mut i: usize = 0;
    let name = text::chars_of(service);
    let ghost all = items(entries@);
    assert(all.skip(0) == all);
    while i < entries.len()
        invariant
            i <= entries.len(),
            name@ == service@,
            all == items(entries@),
            found(all, service@) == found(all.skip(i as int), service@),
            forall|j: int| 0 <= j < i ==> entries@[j].service@ != service@,
        decreases entries.len() - i,
    {
        let e = &entries[i];
        assert(all.skip(i as int)[0] == e@);
        assert(all.skip(i as int).skip(1) == all.skip(i + 1));
        if text::spells(name.as_slice(), e.service.as_str()) {
            return Some(e);
        }
        i += 1;
    }
    None
}

/// Validate a service name for `add`: non-empty, no colon or whitespace.
pub fn validate_service_name(name: &str) -> (r: Result<(), Error>)
    ensures
        error::outcome(r) == name_checked(name@),
        r is Ok <==> name@.len() > 0 && forall|i: int|
            0 <= i < name@.len() ==> #[trigger] name@[i] != ':' && !text::is_space(name@[i]),
        r matches Err(e) ==> if name@.len() == 0 {
            e is EmptyServiceName
        } else {
            e matches Problem::InvalidServiceName(s) && s@ == name@
        },
{
    let all = text::chars_of(name);
    if all.len() == 0 {
        return Err(Problem::EmptyServiceName);
    }
    let mut i: usize = 0;
    while i < all.len()
        invariant
            i <= all.len(),
            all@ == name@,
            all@.len() > 0,
            forall|j: int| 0 <= j < i ==> !forbidden(#[trigger] name@[j]),
        decreases all.len() - i,
    {
        if all[i] == ':' || text::space(all[i]) {
            assert(forbidden(name@[i as int]));
            return Err(Problem::InvalidServiceName(text::string_of(all.as_slice())));
        }
        i += 1;
    }
    Ok(())
}

/// The store's text with one more line, for `service` and `value`.
pub fn append_entry(store: &str, service: &str, value: &str) -> (r: String)
    ensures
        r@ == with_line(store@, service@, value@),
        store@.len() == 0 || store@.last() == '\n' ==> r@ == store@ + service@ + seq![':'] + value@
            + seq!['\n'],
        store@.len() > 0 && store@.last() != '\n' ==> r@ == store@ + seq!['\n'] + service@ + seq![
            ':',
        ] + value@ + seq!['\n'],
{
    let all = text::chars_of(store);
    let mut r = String::new();
    r.append(store);
    assert(r@ == store@);
    if all.len() > 0 && all[all.len() - 1] != '\n' {
        r.push('\n');
    }
    assert(r@ == closed_off(store@));
    r.append(service);
    r.push(':');
    r.append(value);
    r.push('\n');
    assert(r@ == with_line(store@, service@, value@));
    r
}

/// The store's text without the lines that hold an entry for `service`.
/// Comments, blank lines and other entries stay.
pub fn remove_entry(store: &str, service: &str) -> (r: String)
    ensures
        r@ == without_lines(store@, service@),
{
    let all = text::chars_of(store);
    let lines = text::lines(all.as_slice());
    let name = text::chars_of(service);
    let ghost views = text::views(lines@);
    let ghost keep = |line: Seq<char>| !is_for(line, service@);
    let mut r = String::new();
    let ghost mut left = Seq::<Seq<char>>::empty();
    let mut i: usize = 0;
    proof {
        reveal(Seq::filter);
    }
    while i < lines.len()
        invariant
            i <= lines.len(),
            name@ == service@,
            views == text::views(lines@),
            keep == |line: Seq<char>| !is_for(line, service@),
            left == views.take(i as int).filter(keep),
            r@ == ended(left),
        decreases lines.len() - i,
    {
        let line = lines[i];
        assert(views.take(i + 1).last() == line@);
        assert(views.take(i + 1).drop_last() == views.take(i as int));
        let target = match parse_line(line) {
            Some(e) => text::spells(name.as_slice(), e.service.as_str()),
            None => false,
        };
        assert(target == is_for(line@, service@));
        proof {
            reveal(Seq::filter);
        }
        if !target {
            let piece = text::string_of(line);
            r.append(piece.as_str());
            r.push('\n');
            proof {
                let next = left.push(line@);
                assert(next.drop_last() == left);
                assert(ended(left) + line@.push('\n') == (ended(left) + line@).push('\n'));
                left = next;
            }
        }
        i += 1;
    }
    assert(views.take(views.len() as int) == views);
    assert(left == lines_without(views, service@));
    r
}

// ---------------------------------------------------------------------------
// Laws of lines
// ---------------------------------------------------------------------------

/// The lines of a text that ends in a line feed do not depend on what follows.
pub proof fn law_lines_join(a: Seq<char>, b: Seq<char>)
    requires
        a.len() == 0 || a.last() == '\n',
    ensures
        text::lines_of(a + b) == text::lines_of(a) + text::lines_of(b),
    decreases a.len(),
{
    if a.len() == 0 {
        assert(a + b == b);
        assert(text::lines_of(a) + text::lines_of(b) == text::lines_of(b));
    } else {
        let i = text::position(a, '\n');
        text::lemma_position(a, '\n');
        assert(i < a.len()) by {
            if i == a.len() {
                assert(a[a.len() - 1] != '\n');
            }
        }
        text::lemma_position_is(a + b, '\n', i);
        let rest = a.skip(i + 1);
        assert((a + b).take(i) == a.take(i));
        assert((a + b).skip(i + 1) == rest + b);
        assert(rest.len() == 0 || rest.last() == '\n');
        law_lines_join(rest, b);
        let first = seq![text::without_return(a.take(i))];
        assert(first + (text::lines_of(rest) + text::lines_of(b)) == (first + text::lines_of(rest))
            + text::lines_of(b));
    }
}

/// A line without a line feed, ended by one, is one line.
proof fn lemma_one_line(line: Seq<char>)
    requires
        forall|i: int| 0 <= i < line.len() ==> line[i] != '\n',
    ensures
        text::lines_of(line.push('\n')) == seq![text::without_return(line)],
{
    let s = line.push('\n');
    text::lemma_position_is(s, '\n', line.len() as int);
    assert(s.take(line.len() as int) == line);
    assert(s.skip(line.len() as int + 1) == Seq::<char>::empty());
    assert(text::lines_of(Seq::<char>::empty()) == Seq::<Seq<char>>::empty());
    assert(text::lines_of(s) == seq![text::without_return(line)]);
}

/// No line holds a line feed.
proof fn lemma_no_feed(s: Seq<char>)
    ensures
        forall|k: int, i: int|
            0 <= k < text::lines_of(s).len() && 0 <= i < text::lines_of(s)[k].len() ==> (
            #[trigger] text::lines_of(s)[k][i]) != '\n',
    decreases s.len(),
{
    let n = text::position(s, '\n');
    text::lemma_position(s, '\n');
    if s.len() > 0 && n < s.len() {
        let rest = s.skip(n + 1);
        lemma_no_feed(rest);
        let lines = text::lines_of(s);
        assert forall|k: int, i: int| 0 <= k < lines.len() && 0 <= i < lines[k].len() implies (
        #[trigger] lines[k][i]) != '\n' by {
            if k == 0 {
                assert(lines[0] == text::without_return(s.take(n)));
                assert(lines[0][i] == s[i]);
            } else {
                assert(lines[k] == text::lines_of(rest)[k - 1]);
            }
        }
    } else if s.len() > 0 {
        assert(text::lines_of(s) == seq![s]);
    }
}

/// White space at the end of a text does not matter to what trimming leaves.
proof fn lemma_trimmed_push(s: Seq<char>, c: char)
    requires
        text::is_space(c),
    ensures
        text::trimmed(s.push(c)) == text::trimmed(s),
{
    lemma_trimmed_start_push(s, c);
    let t = text::trimmed_start(s);
    if t.len() == 0 {
        assert(t == Seq::<char>::empty());
    } else {
        assert(t.push(c).drop_last() == t);
    }
}

proof fn lemma_trimmed_start_push(s: Seq<char>, c: char)
    requires
        text::is_space(c),
    ensures
        text::trimmed_start(s.push(c)) == if text::trimmed_start(s).len() == 0 {
            seq![]
        } else {
            text::trimmed_start(s).push(c)
        },
    decreases s.len(),
{
    if s.len() == 0 {
        assert(s.push(c).drop_first() == Seq::<char>::empty());
        assert(text::trimmed_start(Seq::<char>::empty()) == Seq::<char>::empty());
    } else if text::is_space(s[0]) {
        assert(s.push(c).drop_first() == s.drop_first().push(c));
        lemma_trimmed_start_push(s.drop_first(), c);
    }
}

/// A carriage return at the end of a line does not matter to its entry.
proof fn lemma_return_ignored(line: Seq<char>)
    ensures
        line_item(text::without_return(line)) == line_item(line),
{
    if line.len() > 0 && line.last() == '\r' {
        assert(line == line.drop_last().push('\r'));
        lemma_trimmed_push(line.drop_last(), '\r');
    }
}

proof fn lemma_items_join(a: Seq<Seq<char>>, b: Seq<Seq<char>>)
    ensures
        items_on(a + b) == items_on(a) + items_on(b),
    decreases b.len(),
{
    if b.len() == 0 {
        assert(a + b == a);
        assert(items_on(a) + items_on(b) == items_on(a));
    } else {
        lemma_items_join(a, b.drop_last());
        assert((a + b).drop_last() == a + b.drop_last());
        assert(items_on(a + b) == items_on(a) + items_on(b));
    }
}

/// Ending lines that hold no line feed keeps their entries.
proof fn lemma_items_of_ended(lines: Seq<Seq<char>>)
    requires
        forall|k: int, i: int|
            0 <= k < lines.len() && 0 <= i < lines[k].len() ==> (#[trigger] lines[k][i]) != '\n',
    ensures
        store_items(ended(lines)) == items_on(lines),
        ended(lines).len() == 0 || ended(lines).last() == '\n',
    decreases lines.len(),
{
    if lines.len() == 0 {
        assert(text::lines_of(ended(lines)) == Seq::<Seq<char>>::empty());
    } else {
        let (front, last) = (lines.drop_last(), lines.last());
        assert forall|k: int, i: int| 0 <= k < front.len() && 0 <= i < front[k].len() implies (
        #[trigger] front[k][i]) != '\n' by {
            assert(front[k] == lines[k]);
            assert(lines[k][i] != '\n');
        }
        lemma_items_of_ended(front);
        law_lines_join(ended(front), last.push('\n'));
        assert forall|i: int| 0 <= i < last.len() implies last[i] != '\n' by {
            assert(lines[lines.len() - 1][i] != '\n');
        }
        lemma_one_line(last);
        lemma_return_ignored(last);
        let one = seq![text::without_return(last)];
        lemma_items_join(text::lines_of(ended(front)), one);
        assert(one.drop_last() == Seq::<Seq<char>>::empty());
        assert(items_on(Seq::<Seq<char>>::empty()) == Seq::<Item>::empty());
        assert(lines == front.push(last));
        assert(store_items(ended(lines)) == items_on(lines));
    }
}

// ---------------------------------------------------------------------------
// Laws of the store
// ---------------------------------------------------------------------------

/// A store that ends in a line feed may be continued: the entries of the two
/// parts follow each other.
pub proof fn law_store_continues(a: Seq<char>, b: Seq<char>)
    requires
        a.len() == 0 || a.last() == '\n',
    ensures
        store_items(a + b) == store_items(a) + store_items(b),
{
    law_lines_join(a, b);
    lemma_items_join(text::lines_of(a), text::lines_of(b));
}

/// Blank lines, comments and lines without a colon hold no entry.
pub proof fn law_line_ignored(line: Seq<char>)
    requires
        ({
            let l = text::trimmed(line);
            l.len() == 0 || l[0] == '#' || !l.contains(':')
        }),
    ensures
        line_item(line) is None,
{
    let l = text::trimmed(line);
    text::lemma_position(l, ':');
    if text::position(l, ':') < l.len() {
        assert(l[text::position(l, ':')] == ':');
        assert(l.contains(':'));
    }
}

/// A line is split at its first colon: a service name without a colon keeps
/// its whole value, colons and all.
pub proof fn law_line_split(service: Seq<char>, value: Seq<char>)
    requires
        name_checked(service) is Ok,
        service[0] != '#',
    ensures
        line_item(service + seq![':'] + value) == Some(
            Item { service, value: text::trimmed(value) },
        ),
{
    let line = service + seq![':'] + value;
    let k = service.len() as int;
    assert forall|i: int| 0 <= i < k implies !forbidden(#[trigger] service[i]) by {}
    assert(!forbidden(service[0]) && !forbidden(service[k - 1]));
    assert(line[0] == service[0]);
    lemma_trimmed_start_nothing(line);
    // Trimming can only reach into the value.
    lemma_trimmed_end_of(service + seq![':'], value);
    let l = text::trimmed(line);
    let v = text::trimmed_end(value);
    assert(l == service + seq![':'] + v);
    assert forall|j: int| 0 <= j < k implies l[j] != ':' by {
        assert(l[j] == service[j]);
        assert(!forbidden(service[j]));
    }
    text::lemma_position_is(l, ':', k);
    assert(l.take(k) == service);
    assert(l.skip(k + 1) == v);
    text::lemma_trimmed_already(service);
    lemma_trim_order(value);
}

proof fn lemma_trimmed_start_nothing(s: Seq<char>)
    requires
        s.len() > 0 ==> !text::is_space(s[0]),
    ensures
        text::trimmed_start(s) == s,
{
}

/// Trimming the end of a text whose front does not end in white space.
proof fn lemma_trimmed_end_of(front: Seq<char>, back: Seq<char>)
    requires
        front.len() > 0,
        !text::is_space(front.last()),
    ensures
        text::trimmed_end(front + back) == front + text::trimmed_end(back),
    decreases back.len(),
{
    if back.len() == 0 {
        assert(front + back == front);
        assert(front + text::trimmed_end(back) == front);
    } else if text::is_space(back.last()) {
        assert((front + back).drop_last() == front + back.drop_last());
        lemma_trimmed_end_of(front, back.drop_last());
    }
}

/// The two ends may be trimmed in either order, or one of them twice.
proof fn lemma_trim_order(s: Seq<char>)
    ensures
        text::trimmed(text::trimmed_end(s)) == text::trimmed(s),
    decreases s.len(),
{
    if s.len() > 0 && text::is_space(s.last()) {
        let t = s.drop_last();
        lemma_trim_order(t);
        assert(s == t.push(s.last()));
        lemma_trimmed_push(t, s.last());
    }
}

/// A line feed after the last line does not matter to the entries.
pub proof fn law_last_line_may_be_open(store: Seq<char>)
    ensures
        store_items(closed_off(store)) == store_items(store),
    decreases store.len(),
{
    if store.len() > 0 && store.last() != '\n' {
        let i = text::position(store, '\n');
        text::lemma_position(store, '\n');
        let s = store.push('\n');
        if i == store.len() {
            lemma_one_line(store);
            lemma_return_ignored(store);
            assert(text::lines_of(store) == seq![store]);
            let one = text::lines_of(s);
            assert(one.drop_last() == Seq::<Seq<char>>::empty());
            assert(text::lines_of(store).drop_last() == Seq::<Seq<char>>::empty());
        } else {
            let (a, b) = (store.take(i + 1), store.skip(i + 1));
            assert(a.last() == '\n');
            assert(b.last() == store.last());
            assert(store == a + b);
            assert(s == a + b.push('\n'));
            law_store_continues(a, b);
            law_store_continues(a, b.push('\n'));
            law_last_line_may_be_open(b);
        }
    }
}

/// An entry whose value stays on its line is one line, and is read back.
proof fn lemma_entry_line(service: Seq<char>, value: Seq<char>)
    requires
        name_checked(service) is Ok,
        service[0] != '#',
        !value.contains('\n'),
    ensures
        ({
            let line = service + seq![':'] + value;
            let read = text::without_return(line);
            &&& text::lines_of(line.push('\n')) == seq![read]
            &&& line_item(read) == Some(Item { service, value: text::trimmed(value) })
        }),
{
    let line = service + seq![':'] + value;
    assert forall|i: int| 0 <= i < line.len() implies line[i] != '\n' by {
        if i < service.len() {
            assert(!forbidden(service[i]));
        } else if i > service.len() {
            assert(line[i] == value[i - service.len() - 1]);
            assert(value.contains(value[i - service.len() - 1]));
        }
    }
    lemma_one_line(line);
    lemma_return_ignored(line);
    law_line_split(service, value);
}

/// A line that was added is read back as the last entry, and the entries
/// before it stay, if the service name does not look like a comment and the
/// value stays on its line.
pub proof fn law_added_entry(store: Seq<char>, service: Seq<char>, value: Seq<char>)
    requires
        name_checked(service) is Ok,
        service[0] != '#',
        !value.contains('\n'),
    ensures
        store_items(with_line(store, service, value)) == store_items(store).push(
            Item { service, value: text::trimmed(value) },
        ),
{
    let line = service + seq![':'] + value;
    let front = closed_off(store);
    assert(with_line(store, service, value) == front + line.push('\n'));
    law_store_continues(front, line.push('\n'));
    law_last_line_may_be_open(store);
    lemma_entry_line(service, value);
    let one = text::lines_of(line.push('\n'));
    assert(one.drop_last() == Seq::<Seq<char>>::empty());
    assert(items_on(Seq::<Seq<char>>::empty()) == Seq::<Item>::empty());
    let item = Item { service, value: text::trimmed(value) };
    assert(items_on(one) == seq![item]);
    assert(store_items(store) + seq![item] == store_items(store).push(item));
}

/// After an entry is added for a service that had none, looking the service up
/// gives that entry; what other services give stays.
pub proof fn law_added_entry_found(
    store: Seq<char>,
    service: Seq<char>,
    value: Seq<char>,
    other: Seq<char>,
)
    requires
        name_checked(service) is Ok,
        service[0] != '#',
        !value.contains('\n'),
        found(store_items(store), service) is None,
        other != service,
    ensures
        found(store_items(with_line(store, service, value)), service) == Some(
            Item { service, value: text::trimmed(value) },
        ),
        found(store_items(with_line(store, service, value)), other) == found(
            store_items(store),
            other,
        ),
{
    law_added_entry(store, service, value);
    let item = Item { service, value: text::trimmed(value) };
    lemma_found_push(store_items(store), item, service);
    lemma_found_push(store_items(store), item, other);
}

/// A value that does not stay on its line is cut at its first line feed; what
/// follows is read as further lines.
pub proof fn law_added_lines(store: Seq<char>, service: Seq<char>, value: Seq<char>)
    requires
        value.contains('\n'),
    ensures
        ({
            let rest = value.skip(text::position(value, '\n') + 1);
            store_items(with_line(store, service, value)) == store_items(
                with_line(store, service, text::first_line(value)),
            ) + store_items(rest.push('\n'))
        }),
{
    let i = text::position(value, '\n');
    text::lemma_position(value, '\n');
    assert(i < value.len()) by {
        if i == value.len() {
            assert(value[value.index_of('\n')] != '\n');
        }
    }
    let front = with_line(store, service, text::first_line(value));
    let rest = value.skip(i + 1);
    assert(text::first_line(value) + seq!['\n'] + rest == value);
    assert(with_line(store, service, value) == front + rest.push('\n'));
    law_store_continues(front, rest.push('\n'));
}

/// After an entry is added for a service that had none, looking the service up
/// gives the first line of the value that was added.
pub proof fn law_added_value_found(store: Seq<char>, service: Seq<char>, value: Seq<char>)
    requires
        name_checked(service) is Ok,
        service[0] != '#',
        found(store_items(store), service) is None,
    ensures
        found(store_items(with_line(store, service, value)), service) == Some(
            Item { service, value: text::trimmed(text::first_line(value)) },
        ),
{
    let first = text::first_line(value);
    text::lemma_position(value, '\n');
    assert(!first.contains('\n')) by {
        if first.contains('\n') {
            let j = first.index_of('\n');
            assert(first[j] == value[j]);
        }
    }
    let other = service.push(':');
    assert(other.len() != service.len());
    law_added_entry_found(store, service, first, other);
    if value.contains('\n') {
        law_added_lines(store, service, value);
        let rest = value.skip(text::position(value, '\n') + 1);
        lemma_found_first(
            store_items(with_line(store, service, first)),
            store_items(rest.push('\n')),
            service,
        );
    } else {
        if text::position(value, '\n') < value.len() {
            assert(value.contains(value[text::position(value, '\n')]));
        }
        assert(first == value);
    }
}

/// What is found in the first of two parts is found in both together.
proof fn lemma_found_first(a: Seq<Item>, b: Seq<Item>, service: Seq<char>)
    requires
        found(a, service) is Some,
    ensures
        found(a + b, service) == found(a, service),
    decreases a.len(),
{
    assert((a + b)[0] == a[0]);
    if a[0].service != service {
        assert((a + b).skip(1) == a.skip(1) + b);
        lemma_found_first(a.skip(1), b, service);
    }
}

proof fn lemma_found_push(items: Seq<Item>, item: Item, service: Seq<char>)
    ensures
        found(items.push(item), service) == match found(items, service) {
            Some(first) => Some(first),
            None => if item.service == service {
                Some(item)
            } else {
                None
            },
        },
    decreases items.len(),
{
    if items.len() > 0 && items[0].service != service {
        assert(items.push(item).skip(1) == items.skip(1).push(item));
        lemma_found_push(items.skip(1), item, service);
    } else if items.len() == 0 {
        assert(items.push(item).skip(1) == Seq::<Item>::empty());
        assert(found(Seq::<Item>::empty(), service) is None);
    }
}

/// The entries on the lines that are left are those for other services.
proof fn lemma_items_without(lines: Seq<Seq<char>>, service: Seq<char>)
    ensures
        items_on(lines_without(lines, service)) == items_on(lines).filter(
            |item: Item| item.service != service,
        ),
    decreases lines.len(),
{
    reveal(Seq::filter);
    let keep = |line: Seq<char>| !is_for(line, service);
    let other = |item: Item| item.service != service;
    if lines.len() > 0 {
        let (front, last) = (lines.drop_last(), lines.last());
        lemma_items_without(front, service);
        let left = front.filter(keep);
        assert(lines.filter(keep) == if keep(last) {
            left.push(last)
        } else {
            left
        });
        assert(left.push(last).drop_last() == left);
        match line_item(last) {
            Some(item) => {
                let before = items_on(front);
                assert(before.push(item).drop_last() == before);
                assert(before.push(item).filter(other) == if other(item) {
                    before.filter(other).push(item)
                } else {
                    before.filter(other)
                });
            },
            None => {},
        }
    }
}

/// Lines that are left are lines of the store, so they hold no line feed.
proof fn lemma_left_no_feed(store: Seq<char>, service: Seq<char>)
    ensures
        ({
            let left = lines_without(text::lines_of(store), service);
            forall|k: int, i: int|
                0 <= k < left.len() && 0 <= i < left[k].len() ==> (#[trigger] left[k][i]) != '\n'
        }),
{
    let lines = text::lines_of(store);
    let left = lines_without(lines, service);
    lemma_no_feed(store);
    assert forall|k: int, i: int| 0 <= k < left.len() && 0 <= i < left[k].len() implies (
    #[trigger] left[k][i]) != '\n' by {
        lines.lemma_filter_contains_rev(|line: Seq<char>| !is_for(line, service), left[k]);
        let m = lines.index_of(left[k]);
        assert(lines[m][i] != '\n');
    }
}

/// Removing a service removes its entries and no others, and keeps the order.
pub proof fn law_removed_entries(store: Seq<char>, service: Seq<char>)
    ensures
        store_items(without_lines(store, service)) == store_items(store).filter(
            |item: Item| item.service != service,
        ),
{
    let left = lines_without(text::lines_of(store), service);
    lemma_items_without(text::lines_of(store), service);
    lemma_left_no_feed(store, service);
    lemma_items_of_ended(left);
}

/// After a service is removed, looking it up gives nothing; what other services
/// give stays.
pub proof fn law_removed_not_found(store: Seq<char>, service: Seq<char>, other: Seq<char>)
    requires
        other != service,
    ensures
        found(store_items(without_lines(store, service)), service) is None,
        found(store_items(without_lines(store, service)), other) == found(
            store_items(store),
            other,
        ),
{
    law_removed_entries(store, service);
    lemma_found_filtered(store_items(store), service, other);
}

proof fn lemma_found_filtered(items: Seq<Item>, service: Seq<char>, other: Seq<char>)
    requires
        other != service,
    ensures
        ({
            let left = items.filter(|item: Item| item.service != service);
            &&& found(left, service) is None
            &&& found(left, other) == found(items, other)
        }),
    decreases items.len(),
{
    let p = |item: Item| item.service != service;
    reveal(Seq::filter);
    if items.len() > 0 {
        let (front, last) = (items.drop_last(), items.last());
        lemma_found_filtered(front, service, other);
        lemma_found_push(front, last, other);
        lemma_found_push(front.filter(p), last, other);
        lemma_found_push(front.filter(p), last, service);
        assert(items == front.push(last));
    }
}

/// Removing a service that was just added leaves the entries that were there.
pub proof fn law_add_then_remove(store: Seq<char>, service: Seq<char>, value: Seq<char>)
    requires
        name_checked(service) is Ok,
        service[0] != '#',
        !value.contains('\n'),
        found(store_items(store), service) is None,
    ensures
        store_items(without_lines(with_line(store, service, value), service)) == store_items(store),
{
    law_added_entry(store, service, value);
    law_removed_entries(with_line(store, service, value), service);
    let p = |item: Item| item.service != service;
    let before = store_items(store);
    let item = Item { service, value: text::trimmed(value) };
    reveal(Seq::filter);
    assert(before.push(item).drop_last() == before);
    assert(before.push(item).filter(p) == before.filter(p));
    lemma_absent_filter(before, service);
}

proof fn lemma_absent_filter(items: Seq<Item>, service: Seq<char>)
    requires
        found(items, service) is None,
    ensures
        items.filter(|item: Item| item.service != service) == items,
    decreases items.len(),
{
    reveal(Seq::filter);
    if items.len() > 0 {
        let (front, last) = (items.drop_last(), items.last());
        assert(items == front.push(last));
        lemma_found_push(front, last, service);
        lemma_absent_filter(front, service);
    }
}

/// Only the lines that hold an entry for the service are dropped: a line is left
/// if and only if it is a line of the store that holds none, and the new text
/// ends each line that is left with a line feed.
pub proof fn law_other_lines_kept(store: Seq<char>, service: Seq<char>, line: Seq<char>)
    ensures
        ({
            let left = lines_without(text::lines_of(store), service);
            &&& left.contains(line) <==> text::lines_of(store).contains(line) && !is_for(
                line,
                service,
            )
            &&& without_lines(store, service) == ended(left)
        }),
{
    let lines = text::lines_of(store);
    let keep = |line: Seq<char>| !is_for(line, service);
    let left = lines.filter(keep);
    if left.contains(line) {
        lines.lemma_filter_contains_rev(keep, line);
        lines.lemma_filter_pred(keep, left.index_of(line));
    }
    if lines.contains(line) && keep(line) {
        lines.lemma_filter_contains(keep, lines.index_of(line));
    }
}

/// Whether `store` is written as this crate writes it: each line ends in a line
/// feed, with no carriage return before it.
pub open spec fn tidy(store: Seq<char>) -> bool {
    &&& store.len() == 0 || store.last() == '\n'
    &&& forall|i: int| 0 <= i < store.len() - 1 && #[trigger] store[i] == '\r' ==> store[i + 1] != '\n'
}

/// A tidy store is its lines, each ended by a line feed.
pub proof fn law_tidy_lines(store: Seq<char>)
    requires
        tidy(store),
    ensures
        ended(text::lines_of(store)) == store,
    decreases store.len(),
{
    if store.len() == 0 {
        assert(store == Seq::<char>::empty());
        assert(text::lines_of(store) == Seq::<Seq<char>>::empty());
    } else {
        let i = text::position(store, '\n');
        text::lemma_position(store, '\n');
        assert(i < store.len()) by {
            if i == store.len() {
                assert(store[store.len() - 1] != '\n');
            }
        }
        let (line, rest) = (store.take(i), store.skip(i + 1));
        if i > 0 {
            assert(line.last() == store[i - 1]);
        }
        assert(text::without_return(line) == line);
        assert(tidy(rest)) by {
            assert forall|k: int| 0 <= k < rest.len() - 1 && #[trigger] rest[k] == '\r' implies rest[k
                + 1] != '\n' by {
                assert(store[k + i + 1] == '\r');
            }
        }
        law_tidy_lines(rest);
        lemma_ended_joins(seq![line], text::lines_of(rest));
        assert(seq![line].drop_last() == Seq::<Seq<char>>::empty());
        assert(ended(Seq::<Seq<char>>::empty()) == Seq::<char>::empty());
        assert(ended(seq![line]) == line.push('\n'));
        assert(line.push('\n') + rest == store);
    }
}

proof fn lemma_ended_joins(a: Seq<Seq<char>>, b: Seq<Seq<char>>)
    ensures
        ended(a + b) == ended(a) + ended(b),
    decreases b.len(),
{
    if b.len() == 0 {
        assert(a + b == a);
        assert(ended(a) + ended(b) == ended(a));
    } else {
        lemma_ended_joins(a, b.drop_last());
        assert((a + b).drop_last() == a + b.drop_last());
        assert(ended(a + b) == ended(a) + ended(b));
    }
}

/// Where a service has no entry, no line is dropped.
proof fn lemma_absent_lines(lines: Seq<Seq<char>>, service: Seq<char>)
    requires
        found(items_on(lines), service) is None,
    ensures
        lines_without(lines, service) == lines,
    decreases lines.len(),
{
    reveal(Seq::filter);
    if lines.len() > 0 {
        let (front, last) = (lines.drop_last(), lines.last());
        match line_item(last) {
            Some(item) => {
                lemma_found_push(items_on(front), item, service);
            },
            None => {},
        }
        lemma_absent_lines(front, service);
        assert(lines == front.push(last));
    }
}

/// Removing a service that was just added to a tidy store gives the very text
/// back.
pub proof fn law_add_then_remove_text(store: Seq<char>, service: Seq<char>, value: Seq<char>)
    requires
        name_checked(service) is Ok,
        service[0] != '#',
        !value.contains('\n'),
        found(store_items(store), service) is None,
        tidy(store),
    ensures
        without_lines(with_line(store, service, value), service) == store,
{
    let line = service + seq![':'] + value;
    let lines = text::lines_of(store);
    let last = text::without_return(line);
    assert(with_line(store, service, value) == store + line.push('\n'));
    law_lines_join(store, line.push('\n'));
    lemma_entry_line(service, value);
    assert(lines + seq![last] == lines.push(last));
    lemma_last_dropped(lines, last, service);
    lemma_absent_lines(lines, service);
    law_tidy_lines(store);
}

proof fn lemma_last_dropped(lines: Seq<Seq<char>>, last: Seq<char>, service: Seq<char>)
    requires
        is_for(last, service),
    ensures
        lines_without(lines.push(last), service) == lines_without(lines, service),
{
    reveal(Seq::filter);
    assert(lines.push(last).drop_last() == lines);
}

/// Whether no two of `items` are for the same service.
pub open spec fn distinct(items: Seq<Item>) -> bool {
    forall|i: int, j: int|
        0 <= i < j < items.len() ==> (#[trigger] items[i]).service != (
        #[trigger] items[j]).service
}

/// A service that is not found has no entry.
pub proof fn law_not_found(items: Seq<Item>, service: Seq<char>)
    ensures
        found(items, service) is None <==> forall|i: int|
            0 <= i < items.len() ==> (#[trigger] items[i]).service != service,
    decreases items.len(),
{
    if items.len() > 0 {
        let rest = items.skip(1);
        law_not_found(rest, service);
        if found(items, service) is None {
            assert forall|i: int| 0 <= i < items.len() implies (#[trigger] items[i]).service
                != service by {
                if i > 0 {
                    assert(rest[i - 1] == items[i]);
                }
            }
        } else if items[0].service != service {
            let i = choose|i: int| 0 <= i < rest.len() && (#[trigger] rest[i]).service == service;
            assert(items[i + 1] == rest[i]);
        }
    }
}

/// A store with one entry for each service keeps that when an entry is added
/// for a service that had none.
pub proof fn law_added_distinct(store: Seq<char>, service: Seq<char>, value: Seq<char>)
    requires
        name_checked(service) is Ok,
        service[0] != '#',
        !value.contains('\n'),
        found(store_items(store), service) is None,
        distinct(store_items(store)),
    ensures
        distinct(store_items(with_line(store, service, value))),
{
    law_added_entry(store, service, value);
    law_not_found(store_items(store), service);
}

/// A store with one entry for each service keeps that when a service is
/// removed.
pub proof fn law_removed_distinct(store: Seq<char>, service: Seq<char>)
    requires
        distinct(store_items(store)),
    ensures
        distinct(store_items(without_lines(store, service))),
{
    law_removed_entries(store, service);
    lemma_filter_distinct(store_items(store), service);
}

proof fn lemma_filter_distinct(items: Seq<Item>, service: Seq<char>)
    requires
        distinct(items),
    ensures
        distinct(items.filter(|item: Item| item.service != service)),
    decreases items.len(),
{
    reveal(Seq::filter);
    let p = |item: Item| item.service != service;
    if items.len() > 0 {
        let (front, last) = (items.drop_last(), items.last());
        assert forall|i: int, j: int| 0 <= i < j < front.len() implies (
        #[trigger] front[i]).service != (#[trigger] front[j]).service by {
            assert(front[i] == items[i] && front[j] == items[j]);
        }
        lemma_filter_distinct(front, service);
        let left = front.filter(p);
        assert forall|i: int| 0 <= i < left.len() implies (#[trigger] left[i]).service
            != last.service by {
            front.lemma_filter_contains_rev(p, left[i]);
            let m = front.index_of(left[i]);
            assert(items[m] == left[i] && items[items.len() - 1] == last);
        }
        assert(items.filter(p) == if p(last) {
            left.push(last)
        } else {
            left
        });
    }
}

// ---------------------------------------------------------------------------
// Laws of names, entries and lines
// ---------------------------------------------------------------------------

/// A name is allowed if and only if it is not empty and none of its characters
/// is a colon or white space.
pub proof fn law_names(name: Seq<char>)
    ensures
        name_checked(name) is Ok <==> name.len() > 0 && forall|i: int|
            0 <= i < name.len() ==> #[trigger] name[i] != ':' && !text::is_space(name[i]),
        name.len() == 0 ==> name_checked(name) == Err::<(), Problem<Seq<char>>>(
            Problem::EmptyServiceName,
        ),
        name.len() > 0 && name_checked(name) is Err ==> name_checked(name) == Err::<
            (),
            Problem<Seq<char>>,
        >(Problem::InvalidServiceName(name)),
{
    if name.len() > 0 && name_checked(name) is Ok {
        assert forall|i: int| 0 <= i < name.len() implies #[trigger] name[i] != ':'
            && !text::is_space(name[i]) by {
            assert(!forbidden(name[i]));
        }
    }
}

/// A character does not depend on its neighbours: two names put together are
/// allowed if and only if both are.
pub proof fn law_names_join(a: Seq<char>, b: Seq<char>)
    requires
        a.len() > 0,
        b.len() > 0,
    ensures
        name_checked(a + b) is Ok <==> name_checked(a) is Ok && name_checked(b) is Ok,
{
    law_names(a);
    law_names(b);
    law_names(a + b);
    let s = a + b;
    if name_checked(a) is Ok && name_checked(b) is Ok {
        assert forall|i: int| 0 <= i < s.len() implies #[trigger] s[i] != ':' && !text::is_space(
            s[i],
        ) by {
            if i < a.len() {
                assert(s[i] == a[i]);
            } else {
                assert(s[i] == b[i - a.len()]);
            }
        }
    }
    if name_checked(s) is Ok {
        assert forall|i: int| 0 <= i < a.len() implies #[trigger] a[i] != ':' && !text::is_space(
            a[i],
        ) by {
            assert(s[i] == a[i]);
        }
        assert forall|i: int| 0 <= i < b.len() implies #[trigger] b[i] != ':' && !text::is_space(
            b[i],
        ) by {
            assert(s[i + a.len()] == b[i]);
        }
    }
}

/// A line holds an entry if and only if, trimmed, it does not begin with `#` and
/// has something other than white space before its first colon.
pub proof fn law_line(line: Seq<char>, a: Seq<char>, b: Seq<char>)
    requires
        !a.contains(':'),
    ensures
        text::trimmed(line) == a ==> line_item(line) is None,
        text::trimmed(line) == a + seq![':'] + b ==> line_item(line) == if text::trimmed(a).len()
            == 0 || a[0] == '#' {
            None
        } else {
            Some(Item { service: text::trimmed(a), value: text::trimmed(b) })
        },
{
    let l = text::trimmed(line);
    text::law_split_at_first(a, b, ':');
    if l == a + seq![':'] + b && a.len() > 0 {
        assert(l[0] == a[0]);
    }
    if a.len() == 0 {
        assert(text::trimmed(a).len() == 0) by {
            text::lemma_trimmed_already(a);
        }
    }
}

/// The entries of a store are those of its lines, in their order.
pub proof fn law_entries_by_line(
    store: Seq<char>,
    a: Seq<Seq<char>>,
    line: Seq<char>,
    b: Seq<Seq<char>>,
)
    ensures
        store_items(store) == items_on(text::lines_of(store)),
        items_on(a + b) == items_on(a) + items_on(b),
        items_on(seq![line]) == match line_item(line) {
            Some(item) => seq![item],
            None => seq![],
        },
{
    lemma_items_join(a, b);
    assert(seq![line].drop_last() == Seq::<Seq<char>>::empty());
    assert(items_on(Seq::<Seq<char>>::empty()) == Seq::<Item>::empty());
    match line_item(line) {
        Some(item) => {
            assert(Seq::<Item>::empty().push(item) == seq![item]);
        },
        None => {},
    }
}

/// What is found is the first entry with that very name.
pub proof fn law_found_first(before: Seq<Item>, item: Item, after: Seq<Item>, service: Seq<char>)
    requires
        forall|i: int| 0 <= i < before.len() ==> (#[trigger] before[i]).service != service,
    ensures
        found(before, service) is None,
        item.service == service ==> found(before.push(item) + after, service) == Some(item),
    decreases before.len(),
{
    let all = before.push(item) + after;
    if before.len() > 0 {
        let rest = before.skip(1);
        assert forall|i: int| 0 <= i < rest.len() implies (#[trigger] rest[i]).service != service by {
            assert(rest[i] == before[i + 1]);
        }
        law_found_first(rest, item, after, service);
        assert(all[0] == before[0]);
        assert(before[0].service != service);
        assert(all.skip(1) == rest.push(item) + after);
    } else {
        assert(all[0] == item);
    }
}

/// An entry is added on a line of its own, after the text that was there.
pub proof fn law_line_added(store: Seq<char>, service: Seq<char>, value: Seq<char>)
    ensures
        ({
            let line = service + seq![':'] + value + seq!['\n'];
            with_line(store, service, value) == if store.len() == 0 || store.last() == '\n' {
                store + line
            } else {
                store + seq!['\n'] + line
            }
        }),
{
    let line = service + seq![':'] + value + seq!['\n'];
    assert(with_line(store, service, value) == closed_off(store) + line);
    assert(store.push('\n') == store + seq!['\n']);
}

/// Removing goes line by line: a line with an entry for the service goes, every
/// other line stays as it is, and each is written with a line feed.
pub proof fn law_lines_removed(
    store: Seq<char>,
    service: Seq<char>,
    lines: Seq<Seq<char>>,
    line: Seq<char>,
)
    ensures
        lines_without(Seq::<Seq<char>>::empty(), service) == Seq::<Seq<char>>::empty(),
        lines_without(lines.push(line), service) == if line_item(line) matches Some(item)
            && item.service == service {
            lines_without(lines, service)
        } else {
            lines_without(lines, service).push(line)
        },
        ended(Seq::<Seq<char>>::empty()) == Seq::<char>::empty(),
        ended(lines.push(line)) == ended(lines) + line + seq!['\n'],
        without_lines(store, service) == ended(lines_without(text::lines_of(store), service)),
{
    reveal(Seq::filter);
    assert(lines.push(line).drop_last() == lines);
    assert(ended(lines) + line.push('\n') == ended(lines) + line + seq!['\n']);
}

/// An entry is seen with its own name and value, and entries in their order.
pub proof fn law_entries_seen(entries: Seq<Entry>, i: int)
    ensures
        items(entries).len() == entries.len(),
        0 <= i < entries.len() ==> {
            &&& items(entries)[i].service == entries[i].service@
            &&& items(entries)[i].value == entries[i].value@
            &&& entries[i]@ == items(entries)[i]
        },
{
}

} // verus!
