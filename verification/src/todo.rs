//! To-do lists as markdown checkboxes, and the notebook pages they fill.
use vstd::prelude::*;
use vstd::slice::slice_subrange;

use crate::chars::{
    append_str, chars_start_with, from_chars, join_chars, join_with, lemma_join_is, lines_chars,
    lines_of, split_on, starts_with, string_views, to_chars, trim, trim_chars, views, without_cr,
};

verus! {

/// The lines of a page.
pub const LINE_COUNT: usize = 6;

/// The most pages that a section shows.
pub const MAX_PAGES_PER_SECTION: usize = 4;

/// A line of a list. A plain line of the file is kept as it is and has no
/// checkbox.
#[derive(Clone)]
pub struct TodoItem {
    pub text: String,
    pub checked: bool,
    pub is_checkbox: bool,
}

#[verifier::ext_equal]
pub struct ItemView {
    pub text: Seq<char>,
    pub checked: bool,
    pub is_checkbox: bool,
}

impl View for TodoItem {
    type V = ItemView;

    open spec fn view(&self) -> ItemView {
        ItemView { text: self.text@, checked: self.checked, is_checkbox: self.is_checkbox }
    }
}

pub open spec fn item_views(items: Seq<TodoItem>) -> Seq<ItemView> {
    Seq::new(items.len(), |i: int| items[i]@)
}

/// A new line: an empty checkbox.
pub open spec fn blank_item() -> ItemView {
    ItemView { text: Seq::empty(), checked: false, is_checkbox: true }
}

impl Default for TodoItem {
    fn default() -> (r: Self)
        ensures
            r@ == blank_item(),
    {
        let r = TodoItem { text: String::new(), checked: false, is_checkbox: true };
        assert(r@.text =~= Seq::empty());
        r
    }
}

/// The text behind a checkbox, without the space that follows the box.
pub open spec fn behind_box(line: Seq<char>) -> Seq<char> {
    let rest = line.skip(5);
    if rest.len() > 0 && rest[0] == ' ' {
        rest.skip(1)
    } else {
        rest
    }
}

/// What a line of the file says.
pub open spec fn parsed(line: Seq<char>) -> ItemView {
    if starts_with(line, "- [x]"@) || starts_with(line, "- [X]"@) {
        ItemView { text: behind_box(line), checked: true, is_checkbox: true }
    } else if starts_with(line, "- [ ]"@) {
        ItemView { text: behind_box(line), checked: false, is_checkbox: true }
    } else {
        ItemView { text: line, checked: false, is_checkbox: false }
    }
}

/// The line that an item is written as.
pub open spec fn serialized(item: ItemView) -> Seq<char> {
    if !item.is_checkbox {
        item.text
    } else if item.checked {
        "- [x] "@ + item.text
    } else {
        "- [ ] "@ + item.text
    }
}

/// Neither checked nor with any text.
pub open spec fn blank(item: ItemView) -> bool {
    !item.checked && item.text.len() == 0
}

impl TodoItem {
    pub fn parse(line: &str) -> (r: Self)
        ensures
            r@ == parsed(line@),
    {
        let chars = to_chars(line);
        proof {
            reveal_strlit("- [x]");
            reveal_strlit("- [X]");
            reveal_strlit("- [ ]");
        }
        let done = to_chars("- [x]");
        let also_done = to_chars("- [X]");
        let open = to_chars("- [ ]");
        let checked = chars_start_with(&chars, &done) || chars_start_with(&chars, &also_done);
        if checked || chars_start_with(&chars, &open) {
            let n: usize = chars.len();
            let from: usize = if n > 5 && chars[5] == ' ' {
                6
            } else {
                5
            };
            let rest = slice_subrange(chars.as_slice(), from, n);
            assert(rest@ =~= behind_box(line@));
            TodoItem { text: from_chars(rest), checked, is_checkbox: true }
        } else {
            TodoItem { text: line.to_owned(), checked: false, is_checkbox: false }
        }
    }

    pub fn serialize(&self) -> (r: String)
        ensures
            r@ == serialized(self@),
    {
        if !self.is_checkbox {
            return self.text.as_str().to_owned();
        }
        let mut out: Vec<char> = to_chars(
            if self.checked {
                "- [x] "
            } else {
                "- [ ] "
            },
        );
        append_str(&mut out, self.text.as_str());
        from_chars(&out)
    }

    /// Whether a box is drawn before the line: plain lines have none, and a
    /// checkbox shows once it is used or being edited.
    pub fn renders_checkbox(&self, focused: bool) -> (r: bool)
        ensures
            r == (self@.is_checkbox && (focused || self@.checked || self@.text.len() > 0)),
    {
        self.is_checkbox && (focused || self.checked || self.text.as_str().unicode_len() > 0)
    }

    pub fn is_blank(&self) -> (r: bool)
        ensures
            r == blank(self@),
    {
        !self.checked && self.text.as_str().unicode_len() == 0
    }

    pub fn copy(&self) -> (r: Self)
        ensures
            r@ == self@,
    {
        TodoItem {
            text: self.text.as_str().to_owned(),
            checked: self.checked,
            is_checkbox: self.is_checkbox,
        }
    }
}

/// What is written is read back, for a checkbox with any text and for a plain
/// line that does not itself look like a checkbox.
pub proof fn lemma_item_round_trip(item: ItemView)
    requires
        !item.is_checkbox ==> !item.checked && !starts_with(item.text, "- [x]"@) && !starts_with(
            item.text,
            "- [X]"@,
        ) && !starts_with(item.text, "- [ ]"@),
    ensures
        parsed(serialized(item)) == item,
{
    reveal_strlit("- [x]");
    reveal_strlit("- [X]");
    reveal_strlit("- [ ]");
    reveal_strlit("- [x] ");
    reveal_strlit("- [ ] ");
    if item.is_checkbox {
        let line = serialized(item);
        if item.checked {
            assert(line.take(5) =~= "- [x]"@);
        } else {
            assert(line.take(5) =~= "- [ ]"@);
            assert(line.take(5)[3] == ' ');
        }
        assert(behind_box(line) =~= item.text);
        assert(parsed(line) =~= item);
    } else {
        assert(parsed(serialized(item)) =~= item);
    }
}

#[derive(Clone)]
pub struct TodoList {
    pub items: Vec<TodoItem>,
}

/// A list without the blank items at its end.
pub open spec fn trimmed(items: Seq<ItemView>) -> Seq<ItemView>
    decreases items.len(),
{
    if items.len() > 0 && blank(items.last()) {
        trimmed(items.drop_last())
    } else {
        items
    }
}

/// The lines of a list.
pub open spec fn item_lines(items: Seq<ItemView>) -> Seq<Seq<char>> {
    Seq::new(items.len(), |i: int| serialized(items[i]))
}

/// The file of a list: a line for each item; empty without items.
pub open spec fn list_text(items: Seq<ItemView>) -> Seq<char> {
    if items.len() == 0 {
        Seq::empty()
    } else {
        join_with(item_lines(items), seq!['\n']).push('\n')
    }
}

/// The items of a file.
pub open spec fn parsed_lines(lines: Seq<Seq<char>>) -> Seq<ItemView> {
    Seq::new(lines.len(), |i: int| parsed(lines[i]))
}

/// The pages that items fill: at least one, and a fresh one once the last is
/// full, up to a limit.
pub open spec fn pages_of(items: Seq<ItemView>) -> int {
    let filled = if items.len() == 0 {
        1
    } else {
        (items.len() + LINE_COUNT - 1) / LINE_COUNT as int
    };
    let full = items.len() > 0 && items.len() == filled * LINE_COUNT && forall|i: int|
        items.len() - LINE_COUNT <= i < items.len() ==> !blank(#[trigger] items[i]);
    let pages = if full {
        filled + 1
    } else {
        filled
    };
    if pages < MAX_PAGES_PER_SECTION {
        pages
    } else {
        MAX_PAGES_PER_SECTION as int
    }
}

/// The item on a line of a page; a blank one past the end.
pub open spec fn item_at(items: Seq<ItemView>, page: int, line: int) -> ItemView {
    let i = page * LINE_COUNT + line;
    if i < items.len() {
        items[i]
    } else {
        blank_item()
    }
}

/// A list made longer with blank items.
pub open spec fn padded(items: Seq<ItemView>, len: int) -> Seq<ItemView> {
    if items.len() >= len {
        items
    } else {
        items + Seq::new((len - items.len()) as nat, |i: int| blank_item())
    }
}

/// The items that are not checked.
pub open spec fn unchecked(items: Seq<ItemView>) -> Seq<ItemView>
    decreases items.len(),
{
    if items.len() == 0 {
        Seq::empty()
    } else {
        let before = unchecked(items.drop_last());
        if items.last().checked {
            before
        } else {
            before.push(items.last())
        }
    }
}

pub open spec fn any_checked(items: Seq<ItemView>) -> bool {
    exists|i: int| 0 <= i < items.len() && (#[trigger] items[i]).checked
}

/// The texts of the checked items that say something.
pub open spec fn done_texts(items: Seq<ItemView>) -> Seq<Seq<char>>
    decreases items.len(),
{
    if items.len() == 0 {
        Seq::empty()
    } else {
        let before = done_texts(items.drop_last());
        if items.last().checked && trim(items.last().text).len() > 0 {
            before.push(items.last().text)
        } else {
            before
        }
    }
}

impl View for TodoList {
    type V = Seq<ItemView>;

    open spec fn view(&self) -> Seq<ItemView> {
        item_views(self.items@)
    }
}

impl TodoList {
    /// The list in a file; a missing file is an empty list.
    pub fn load(text: &str) -> (r: Self)
        ensures
            r@ == trimmed(parsed_lines(lines_of(text@))),
    {
        let chars = to_chars(text);
        let lines = lines_chars(&chars);
        let mut items: Vec<TodoItem> = Vec::new();
        let mut i: usize = 0;
        while i < lines.len()
            invariant
                i <= lines@.len(),
                views(lines@) == lines_of(text@),
                item_views(items@) =~= parsed_lines(views(lines@).take(i as int)),
            decreases lines@.len() - i,
        {
            let line = from_chars(&lines[i]);
            let item = TodoItem::parse(line.as_str());
            let ghost before = items@;
            items.push(item);
            proof {
                assert(item_views(items@) =~= item_views(before).push(item@));
                assert(views(lines@).take(i + 1) =~= views(lines@).take(i as int).push(
                    lines@[i as int]@,
                ));
            }
            i += 1;
        }
        assert(views(lines@).take(lines@.len() as int) =~= views(lines@));
        let mut list = TodoList { items };
        list.trim_trailing_blank_items();
        list
    }

    pub fn copy(&self) -> (r: Self)
        ensures
            r@ == self@,
    {
        let mut items: Vec<TodoItem> = Vec::new();
        let mut i: usize = 0;
        while i < self.items.len()
            invariant
                i <= self.items@.len(),
                item_views(items@) =~= self@.take(i as int),
            decreases self.items@.len() - i,
        {
            let ghost before = items@;
            items.push(self.items[i].copy());
            assert(item_views(items@) =~= item_views(before).push(self.items@[i as int]@));
            i += 1;
        }
        assert(item_views(items@) =~= self@);
        TodoList { items }
    }

    pub fn page_count(&self) -> (r: usize)
        ensures
            r == pages_of(self@),
            1 <= r <= MAX_PAGES_PER_SECTION,
    {
        let len: usize = self.items.len();
        if len == 0 {
            return 1;
        }
        let filled: usize = (len - 1) / LINE_COUNT + 1;
        if filled >= MAX_PAGES_PER_SECTION {
            return MAX_PAGES_PER_SECTION;
        }
        if len != filled * LINE_COUNT {
            return filled;
        }
        let mut i: usize = len - LINE_COUNT;
        while i < len
            invariant
                len == self.items@.len(),
                LINE_COUNT <= len,
                len - LINE_COUNT <= i <= len,
                len == filled * LINE_COUNT,
                1 <= filled < MAX_PAGES_PER_SECTION,
                forall|j: int| len - LINE_COUNT <= j < i ==> !blank(#[trigger] self@[j]),
            decreases len - i,
        {
            if self.items[i].is_blank() {
                assert(blank(self@[i as int]));
                return filled;
            }
            assert(!blank(self@[i as int]));
            i += 1;
        }
        filled + 1
    }

    pub fn item(&self, page: usize, line: usize) -> (r: TodoItem)
        requires
            page * LINE_COUNT + line <= usize::MAX,
        ensures
            r@ == item_at(self@, page as int, line as int),
    {
        let index: usize = page * LINE_COUNT + line;
        if index < self.items.len() {
            self.items[index].copy()
        } else {
            TodoItem::default()
        }
    }

    /// The item on a line of a page to be changed; the list grows to reach it.
    pub fn item_mut(&mut self, page: usize, line: usize) -> (r: &mut TodoItem)
        requires
            page * LINE_COUNT + line < usize::MAX,
        ensures
            r@ == item_at(old(self)@, page as int, line as int),
            final(self)@ == padded(old(self)@, page * LINE_COUNT + line + 1).update(
                page * LINE_COUNT + line,
                final(r)@,
            ),
    {
        let index: usize = page * LINE_COUNT + line;
        let ghost start = self@;
        while self.items.len() <= index
            invariant
                index < usize::MAX,
                start.len() <= self.items@.len(),
                self.items@.len() <= start.len() || self.items@.len() <= index + 1,
                self@ =~= padded(start, self.items@.len() as int),
            decreases index + 1 - self.items@.len(),
        {
            let ghost before = self.items@;
            self.items.push(TodoItem::default());
            assert(item_views(self.items@) =~= item_views(before).push(blank_item()));
        }
        assert(self@ =~= padded(start, index + 1));
        assert(self.items@[index as int]@ == self@[index as int]);
        &mut self.items[index]
    }

    /// What taking an item out leads to.
    pub open spec fn deletion_leads_to(
        &self,
        page: usize,
        line: usize,
        after: &Self,
        r: bool,
    ) -> bool {
        &&& r == (page * LINE_COUNT + line < self@.len())
        &&& after@ == (if r {
            self@.remove(page * LINE_COUNT + line)
        } else {
            self@
        })
    }

    /// Takes an item out, moving the later ones up; answers whether there was
    /// one.
    pub fn delete_item(&mut self, page: usize, line: usize) -> (r: bool)
        requires
            page * LINE_COUNT + line <= usize::MAX,
        ensures
            old(self).deletion_leads_to(page, line, final(self), r),
    {
        let index: usize = page * LINE_COUNT + line;
        if index >= self.items.len() {
            return false;
        }
        self.items.remove(index);
        assert(self@ =~= old(self)@.remove(index as int));
        true
    }

    pub fn trim_trailing_blank_items(&mut self)
        ensures
            final(self)@ == trimmed(old(self)@),
    {
        while self.items.len() > 0 && self.items[self.items.len() - 1].is_blank()
            invariant
                trimmed(self@) == trimmed(old(self)@),
            decreases self.items@.len(),
        {
            let ghost before = self.items@;
            self.items.pop();
            assert(item_views(self.items@) =~= item_views(before).drop_last());
        }
    }

    pub fn serialized_text(&self) -> (r: String)
        ensures
            r@ == list_text(self@),
    {
        if self.items.len() == 0 {
            let r = String::new();
            assert(r@ =~= Seq::empty());
            return r;
        }
        let mut lines: Vec<Vec<char>> = Vec::new();
        let mut i: usize = 0;
        while i < self.items.len()
            invariant
                i <= self.items@.len(),
                views(lines@) =~= item_lines(self@).take(i as int),
            decreases self.items@.len() - i,
        {
            let line = self.items[i].serialize();
            let ghost before = lines@;
            let chars = to_chars(line.as_str());
            lines.push(chars);
            assert(views(lines@) =~= views(before).push(chars@));
            i += 1;
        }
        assert(views(lines@) =~= item_lines(self@));
        let mut newline: Vec<char> = Vec::new();
        newline.push('\n');
        assert(newline@ =~= seq!['\n']);
        let mut text = join_chars(&lines, &newline);
        text.push('\n');
        from_chars(&text)
    }

    /// What is left of the list once its checked items are filed away: nothing
    /// changes when none is checked.
    pub open spec fn swept(items: Seq<ItemView>) -> Seq<ItemView> {
        if any_checked(items) {
            trimmed(unchecked(items))
        } else {
            items
        }
    }

    /// Takes the checked items out. Answers the texts to file away, and
    /// whether the list changed.
    pub fn sweep(&mut self) -> (r: (Vec<String>, bool))
        ensures
            string_views(r.0@) == done_texts(old(self)@),
            r.1 == any_checked(old(self)@),
            final(self)@ == TodoList::swept(old(self)@),
    {
        let mut archived: Vec<String> = Vec::new();
        let mut remaining: Vec<TodoItem> = Vec::new();
        let mut changed = false;
        let mut i: usize = 0;
        while i < self.items.len()
            invariant
                i <= self.items@.len(),
                *self == *old(self),
                changed == any_checked(self@.take(i as int)),
                string_views(archived@) =~= done_texts(self@.take(i as int)),
                item_views(remaining@) =~= unchecked(self@.take(i as int)),
            decreases self.items@.len() - i,
        {
            let item = &self.items[i];
            let ghost now = self@.take(i + 1);
            proof {
                assert(now.drop_last() =~= self@.take(i as int));
                assert(now.last() == self.items@[i as int]@);
                if any_checked(self@.take(i as int)) {
                    let k = choose|k: int|
                        0 <= k < i && (#[trigger] self@.take(i as int)[k]).checked;
                    assert(now[k].checked);
                }
            }
            if item.checked {
                let chars = to_chars(item.text.as_str());
                if trim_chars(&chars).len() > 0 {
                    let ghost before = archived@;
                    archived.push(item.text.as_str().to_owned());
                    assert(string_views(archived@) =~= string_views(before).push(item.text@));
                }
                assert(now[i as int].checked);
                changed = true;
            } else {
                let ghost before = remaining@;
                let copy = item.copy();
                remaining.push(copy);
                proof {
                    assert(item_views(remaining@) =~= item_views(before).push(item@));
                    if any_checked(now) {
                        let k = choose|k: int| 0 <= k < now.len() && (#[trigger] now[k]).checked;
                        assert(k < i);
                        assert(self@.take(i as int)[k].checked);
                    }
                }
            }
            i += 1;
        }
        assert(self@.take(self.items@.len() as int) =~= self@);
        if changed {
            self.items = remaining;
            self.trim_trailing_blank_items();
        }
        (archived, changed)
    }
}

/// Pieces without the separator are found again in what they join to.
proof fn lemma_split_joined(pieces: Seq<Seq<char>>, sep: char)
    requires
        pieces.len() > 0,
        forall|i: int, j: int|
            0 <= i < pieces.len() && 0 <= j < pieces[i].len() ==> #[trigger] pieces[i][j] != sep,
    ensures
        split_on(join_with(pieces, seq![sep]), sep) == pieces,
    decreases pieces.len(),
{
    let last = pieces.last();
    assert forall|j: int| 0 <= j < last.len() implies #[trigger] last[j] != sep by {
        assert(pieces[pieces.len() - 1][j] != sep);
    }
    if pieces.len() == 1 {
        crate::chars::lemma_split_push(Seq::empty(), sep, last);
        assert(Seq::<char>::empty() + last =~= last);
        let base = split_on(Seq::<char>::empty(), sep);
        assert(base.drop_last().push(base.last() + last) =~= pieces);
    } else {
        let front = pieces.drop_last();
        assert forall|i: int, j: int|
            0 <= i < front.len() && 0 <= j < front[i].len() implies #[trigger] front[i][j] != sep by {
            assert(pieces[i][j] != sep);
        }
        lemma_split_joined(front, sep);
        let head = join_with(front, seq![sep]);
        let with_sep = head + seq![sep];
        assert(with_sep.drop_last() =~= head);
        assert(split_on(with_sep, sep) == front.push(Seq::<char>::empty()));
        crate::chars::lemma_split_push(with_sep, sep, last);
        assert(front.push(Seq::<char>::empty()).drop_last() =~= front);
        assert(Seq::<char>::empty() + last =~= last);
        assert(front.push(last) =~= pieces);
        assert(join_with(pieces, seq![sep]) =~= with_sep + last);
    }
}

/// A line of a file that reads back as it was written.
pub open spec fn plain_line(line: Seq<char>) -> bool {
    &&& forall|j: int| 0 <= j < line.len() ==> #[trigger] line[j] != '\n'
    &&& without_cr(line) == line
}

/// A saved list is loaded again as it was, when its items fit on lines and it
/// does not end with a blank item.
pub proof fn lemma_list_round_trip(items: Seq<ItemView>)
    requires
        forall|i: int|
            0 <= i < items.len() ==> plain_line(serialized(#[trigger] items[i])) && parsed(
                serialized(items[i]),
            ) == items[i],
        trimmed(items) == items,
    ensures
        trimmed(parsed_lines(lines_of(list_text(items)))) == items,
{
    if items.len() == 0 {
        let pieces = split_on(Seq::<char>::empty(), '\n');
        assert(lines_of(list_text(items)) =~= Seq::empty());
        assert(parsed_lines(lines_of(list_text(items))) =~= items);
    } else {
        let lines = item_lines(items);
        let joined = join_with(lines, seq!['\n']);
        assert forall|i: int, j: int|
            0 <= i < lines.len() && 0 <= j < lines[i].len() implies #[trigger] lines[i][j]
            != '\n' by {
            assert(plain_line(serialized(items[i])));
        }
        lemma_split_joined(lines, '\n');
        let text = list_text(items);
        assert(text.drop_last() =~= joined);
        let pieces = split_on(text, '\n');
        assert(pieces =~= lines.push(Seq::<char>::empty()));
        assert forall|i: int| 0 <= i < lines.len() implies without_cr(#[trigger] pieces[i])
            == lines[i] by {
            assert(plain_line(serialized(items[i])));
        }
        assert(lines_of(text) =~= lines);
        assert(parsed_lines(lines_of(text)) =~= items);
    }
}

/// Sweeping keeps every item that is not checked, in order, and files away
/// every checked one that says something; swept again, nothing more happens.
pub proof fn lemma_sweep(items: Seq<ItemView>)
    ensures
        forall|i: int| 0 <= i < unchecked(items).len() ==> !(#[trigger] unchecked(items)[i]).checked,
        !any_checked(TodoList::swept(items)),
        TodoList::swept(TodoList::swept(items)) == TodoList::swept(items),
        done_texts(TodoList::swept(items)).len() == 0,
{
    lemma_unchecked(items);
    let kept = unchecked(items);
    lemma_trimmed_prefix(kept);
    let left = TodoList::swept(items);
    if any_checked(left) {
        let k = choose|k: int| 0 <= k < left.len() && (#[trigger] left[k]).checked;
        if any_checked(items) {
            assert(left[k] == kept[k]);
        }
    }
    lemma_no_done(left);
}

proof fn lemma_unchecked(items: Seq<ItemView>)
    ensures
        forall|i: int| 0 <= i < unchecked(items).len() ==> !(#[trigger] unchecked(items)[i]).checked,
    decreases items.len(),
{
    if items.len() > 0 {
        let before = unchecked(items.drop_last());
        lemma_unchecked(items.drop_last());
        assert forall|i: int| 0 <= i < unchecked(items).len() implies !(#[trigger] unchecked(
            items,
        )[i]).checked by {
            if i < before.len() {
                assert(!before[i].checked);
            }
        }
    }
}

proof fn lemma_trimmed_prefix(items: Seq<ItemView>)
    ensures
        trimmed(items).len() <= items.len(),
        forall|i: int| 0 <= i < trimmed(items).len() ==> #[trigger] trimmed(items)[i] == items[i],
    decreases items.len(),
{
    if items.len() > 0 && blank(items.last()) {
        lemma_trimmed_prefix(items.drop_last());
    }
}

proof fn lemma_no_done(items: Seq<ItemView>)
    requires
        !any_checked(items),
    ensures
        done_texts(items).len() == 0,
    decreases items.len(),
{
    if items.len() > 0 {
        let front = items.drop_last();
        assert(!items[items.len() - 1].checked);
        if any_checked(front) {
            let k = choose|k: int| 0 <= k < front.len() && (#[trigger] front[k]).checked;
            assert(items[k].checked);
        }
        lemma_no_done(front);
    }
}

/// What is appended to a day's file of done items: each on a line of its own,
/// after whatever the file holds.
pub open spec fn done_file_text(existing: Seq<char>, todos: Seq<Seq<char>>) -> Seq<char>
    decreases todos.len(),
{
    if todos.len() == 0 {
        if existing.len() > 0 && existing.last() != '\n' {
            existing.push('\n')
        } else {
            existing
        }
    } else {
        done_file_text(existing, todos.drop_last()) + "- [x] "@ + todos.last() + seq!['\n']
    }
}

pub fn appended_done(existing: &str, todos: &Vec<String>) -> (r: String)
    ensures
        r@ == done_file_text(existing@, string_views(todos@)),
{
    let mut out = to_chars(existing);
    if out.len() > 0 && out[out.len() - 1] != '\n' {
        out.push('\n');
    }
    let mut i: usize = 0;
    assert(string_views(todos@).take(0) =~= Seq::empty());
    while i < todos.len()
        invariant
            i <= todos@.len(),
            out@ == done_file_text(existing@, string_views(todos@).take(i as int)),
        decreases todos@.len() - i,
    {
        let ghost now = string_views(todos@).take(i + 1);
        assert(now.drop_last() =~= string_views(todos@).take(i as int));
        let ghost before = out@;
        append_str(&mut out, "- [x] ");
        append_str(&mut out, todos[i].as_str());
        out.push('\n');
        assert(out@ =~= before + "- [x] "@ + todos@[i as int]@ + seq!['\n']);
        i += 1;
    }
    assert(string_views(todos@).take(todos@.len() as int) =~= string_views(todos@));
    from_chars(&out)
}

/// How many of the first lines are not blank.
pub open spec fn filled_lines(lines: Seq<Seq<char>>) -> nat
    decreases lines.len(),
{
    if lines.len() == 0 {
        0
    } else {
        filled_lines(lines.drop_last()) + if trim(lines.last()).len() > 0 {
            1nat
        } else {
            0nat
        }
    }
}

/// How many done items a day's file holds.
pub fn count_done_lines(text: &str) -> (r: usize)
    ensures
        r == filled_lines(lines_of(text@)),
{
    let chars = to_chars(text);
    let lines = lines_chars(&chars);
    let mut count: usize = 0;
    let mut i: usize = 0;
    assert(views(lines@).take(0) =~= Seq::empty());
    while i < lines.len()
        invariant
            i <= lines@.len(),
            count <= i,
            count == filled_lines(views(lines@).take(i as int)),
        decreases lines@.len() - i,
    {
        assert(views(lines@).take(i + 1).drop_last() =~= views(lines@).take(i as int));
        if trim_chars(&lines[i]).len() > 0 {
            count += 1;
        }
        i += 1;
    }
    assert(views(lines@).take(lines@.len() as int) =~= lines_of(text@));
    count
}

/// The open items are all items that are not checked, in their order: each of
/// them, however many there are, and nothing else.
pub proof fn lemma_unchecked_is(items: Seq<ItemView>)
    ensures
        unchecked(items) == items.filter(|x: ItemView| !x.checked),
        unchecked(items).len() + items.filter(|x: ItemView| x.checked).len() == items.len(),
    decreases items.len(),
{
    reveal(Seq::filter);
    let open = |x: ItemView| !x.checked;
    let done = |x: ItemView| x.checked;
    if items.len() > 0 {
        lemma_unchecked_is(items.drop_last());
        assert(open(items.last()) == !items.last().checked);
        assert(done(items.last()) == items.last().checked);
    } else {
        assert(items.filter(open) =~= unchecked(items));
    }
}

/// Of a list without its blank end only items without a text or a check mark are
/// missing, all of them at the end, and the last that stays is none of these.
pub proof fn lemma_trimmed_is(items: Seq<ItemView>)
    ensures
        trimmed(items).len() <= items.len(),
        trimmed(items) == items.take(trimmed(items).len() as int),
        forall|i: int|
            trimmed(items).len() <= i < items.len() ==> (#[trigger] items[i]).text.len() == 0
                && !items[i].checked,
        trimmed(items).len() > 0 ==> items[trimmed(items).len() - 1].text.len() > 0
            || items[trimmed(items).len() - 1].checked,
    decreases items.len(),
{
    if items.len() > 0 && blank(items.last()) {
        lemma_trimmed_is(items.drop_last());
        let n = trimmed(items).len() as int;
        assert(items.take(n) =~= items.drop_last().take(n));
        assert forall|i: int| n <= i < items.len() implies (#[trigger] items[i]).text.len() == 0
            && !items[i].checked by {
            if i < items.len() - 1 {
                assert(items[i] == items.drop_last()[i]);
            }
        }
    } else {
        assert(items.take(items.len() as int) =~= items);
    }
}

/// A sweep keeps every open item in its order, and takes away the checked ones.
/// Only items without a text are lost with them, from the end. Without a checked
/// item it changes nothing.
pub proof fn lemma_sweep_keeps_open_items(items: Seq<ItemView>)
    ensures
        (forall|i: int| 0 <= i < items.len() ==> !(#[trigger] items[i]).checked)
            ==> TodoList::swept(items) == items,
        (exists|i: int| 0 <= i < items.len() && (#[trigger] items[i]).checked) ==> ({
            let open = items.filter(|x: ItemView| !x.checked);
            let kept = TodoList::swept(items);
            &&& kept.len() <= open.len()
            &&& kept == open.take(kept.len() as int)
            &&& forall|i: int| kept.len() <= i < open.len() ==> (#[trigger] open[i]).text.len() == 0
            &&& kept.len() > 0 ==> kept[kept.len() - 1].text.len() > 0
        }),
        forall|x: ItemView|
            !x.checked && x.text.len() > 0 && #[trigger] items.contains(x) ==> TodoList::swept(
                items,
            ).contains(x),
{
    let open = items.filter(|x: ItemView| !x.checked);
    lemma_unchecked_is(items);
    lemma_trimmed_is(unchecked(items));
    lemma_sweep(items);
    let kept = TodoList::swept(items);
    if any_checked(items) {
        assert(kept.len() > 0 ==> kept[kept.len() - 1] == open[kept.len() - 1]);
    }
    assert forall|x: ItemView|
        !x.checked && x.text.len() > 0 && #[trigger] items.contains(x) implies kept.contains(
        x,
    ) by {
        lemma_filter_contains(items, x);
        let i = choose|i: int| 0 <= i < open.len() && open[i] == x;
        assert(open[i] == x);
        if any_checked(items) {
            assert(i < kept.len());
            assert(kept[i] == x);
        }
    }
}

proof fn lemma_filter_contains(items: Seq<ItemView>, x: ItemView)
    requires
        items.contains(x),
        !x.checked,
    ensures
        items.filter(|x: ItemView| !x.checked).contains(x),
    decreases items.len(),
{
    reveal(Seq::filter);
    let open = |x: ItemView| !x.checked;
    let before = items.drop_last().filter(open);
    let after = items.filter(open);
    assert(open(items.last()) == !items.last().checked);
    if items.last() == x {
        assert(after[after.len() - 1] == x);
    } else {
        let i = choose|i: int| 0 <= i < items.len() && items[i] == x;
        assert(items.drop_last()[i] == x);
        lemma_filter_contains(items.drop_last(), x);
        let j = choose|j: int| 0 <= j < before.len() && before[j] == x;
        assert(after[j] == x);
    }
}

/// What is done are the texts of the checked items, in order, but for those that
/// are blank.
pub proof fn lemma_done_texts_are(items: Seq<ItemView>)
    ensures
        done_texts(items) == items.filter(
            |x: ItemView| x.checked && trim(x.text).len() > 0,
        ).map_values(|x: ItemView| x.text),
    decreases items.len(),
{
    reveal(Seq::filter);
    let done = |x: ItemView| x.checked && trim(x.text).len() > 0;
    let text = |x: ItemView| x.text;
    if items.len() > 0 {
        lemma_done_texts_are(items.drop_last());
        let before = items.drop_last().filter(done);
        assert(done(items.last()) == (items.last().checked && trim(items.last().text).len() > 0));
        assert(before.push(items.last()).map_values(text) =~= before.map_values(text).push(
            items.last().text,
        ));
    } else {
        assert(items.filter(done).map_values(text) =~= done_texts(items));
    }
}

/// A line that begins with a box is an item with that box, checked for an x of
/// either case and open for a space; one space behind the box is not part of the
/// text. Any other line is all text.
pub proof fn lemma_parsed_is(line: Seq<char>)
    ensures
        ({
            let boxed = line.len() >= 5 && line[0] == '-' && line[1] == ' ' && line[2] == '['
                && line[4] == ']' && (line[3] == 'x' || line[3] == 'X' || line[3] == ' ');
            if boxed {
                &&& parsed(line).is_checkbox
                &&& parsed(line).checked <==> line[3] != ' '
                &&& parsed(line).text == if line.len() > 5 && line[5] == ' ' {
                    line.skip(6)
                } else {
                    line.skip(5)
                }
            } else {
                !parsed(line).is_checkbox && !parsed(line).checked && parsed(line).text == line
            }
        }),
{
    reveal_strlit("- [x]");
    reveal_strlit("- [X]");
    reveal_strlit("- [ ]");
    assert(line.len() > 5 ==> line.skip(5).skip(1) =~= line.skip(6));
    if line.len() >= 5 {
        let head = line.take(5);
        assert(head[0] == line[0] && head[1] == line[1] && head[2] == line[2] && head[3] == line[3]
            && head[4] == line[4]);
        assert(head == "- [x]"@ ==> head[3] == 'x');
        assert(head == "- [X]"@ ==> head[3] == 'X');
        assert(head == "- [ ]"@ ==> head[3] == ' ');
        if line[0] == '-' && line[1] == ' ' && line[2] == '[' && line[4] == ']' {
            if line[3] == 'x' {
                assert(head =~= "- [x]"@);
            } else if line[3] == 'X' {
                assert(head =~= "- [X]"@);
            } else if line[3] == ' ' {
                assert(head =~= "- [ ]"@);
            }
        }
    }
}

/// An item with a box is written as a dash, the box, a space and the text; one
/// without is its text.
pub proof fn lemma_serialized_is(item: ItemView)
    ensures
        !item.is_checkbox ==> serialized(item) == item.text,
        item.is_checkbox ==> serialized(item) == seq![
            '-',
            ' ',
            '[',
            if item.checked {
                'x'
            } else {
                ' '
            },
            ']',
            ' ',
        ] + item.text,
{
    reveal_strlit("- [x] ");
    reveal_strlit("- [ ] ");
    assert("- [x] "@ =~= seq!['-', ' ', '[', 'x', ']', ' ']);
    assert("- [ ] "@ =~= seq!['-', ' ', '[', ' ', ']', ' ']);
}

/// The text of a list grows by one line with each item, each line closed by a
/// line feed.
pub proof fn lemma_list_text_grows(items: Seq<ItemView>, item: ItemView)
    ensures
        list_text(Seq::empty()).len() == 0,
        list_text(items.push(item)) == list_text(items) + serialized(item) + seq!['\n'],
{
    let lines = item_lines(items);
    assert(item_lines(items.push(item)) =~= lines + seq![serialized(item)]);
    lemma_join_is(lines, seq![serialized(item)], seq!['\n']);
    lemma_join_is(seq![serialized(item)], lines, seq!['\n']);
    assert(Seq::<Seq<char>>::empty() + seq![serialized(item)] =~= seq![serialized(item)]);
    assert(items.len() == 0 ==> lines =~= Seq::<Seq<char>>::empty());
    assert(list_text(items.push(item)) =~= list_text(items) + serialized(item) + seq!['\n']);
}

/// A list has between one page and four, of six lines each. There are no more
/// pages than its items fill, but for an empty one behind a last page on which
/// nothing is blank; and no fewer, below four.
pub proof fn lemma_pages_hold_items(items: Seq<ItemView>)
    ensures
        1 <= pages_of(items) <= 4,
        pages_of(items) < 4 ==> items.len() <= 6 * pages_of(items),
        pages_of(items) > 1 ==> items.len() >= 6 * (pages_of(items) - 1),
        pages_of(items) > 1 && items.len() == 6 * (pages_of(items) - 1) ==> forall|i: int|
            items.len() - 6 <= i < items.len() ==> (#[trigger] items[i]).checked
                || items[i].text.len() > 0,
        pages_of(items) < 4 && items.len() == 6 * pages_of(items) ==> exists|i: int|
            items.len() - 6 <= i < items.len() && !(#[trigger] items[i]).checked
                && items[i].text.len() == 0,
{
}

/// The item on a line of a page, counted six to the page, or an empty open one
/// with a box behind the end.
pub proof fn lemma_item_at_is(items: Seq<ItemView>, page: int, line: int)
    requires
        0 <= page,
        0 <= line < 6,
    ensures
        6 * page + line < items.len() ==> item_at(items, page, line) == items[6 * page + line],
        6 * page + line >= items.len() ==> item_at(items, page, line) == (ItemView {
            text: Seq::empty(),
            checked: false,
            is_checkbox: true,
        }),
{
}

/// A list made longer keeps its items and gets empty open ones with a box behind
/// them.
pub proof fn lemma_padded_is(items: Seq<ItemView>, len: int)
    ensures
        len <= items.len() ==> padded(items, len) == items,
        len > items.len() ==> padded(items, len).len() == len && padded(items, len).take(
            items.len() as int,
        ) == items && forall|i: int|
            items.len() <= i < len ==> (#[trigger] padded(items, len)[i]) == (ItemView {
                text: Seq::empty(),
                checked: false,
                is_checkbox: true,
            }),
{
    if len > items.len() {
        assert(padded(items, len).take(items.len() as int) =~= items);
    }
}

/// The file of what is done keeps what it held, with its last line closed, and
/// gets one checked line for each text, in order.
pub proof fn lemma_done_file_grows(existing: Seq<char>, todos: Seq<Seq<char>>, todo: Seq<char>)
    ensures
        done_file_text(existing, todos.push(todo)) == done_file_text(existing, todos) + seq![
            '-',
            ' ',
            '[',
            'x',
            ']',
            ' ',
        ] + todo + seq!['\n'],
        done_file_text(existing, Seq::empty()) == if existing.len() == 0 || existing[existing.len()
            - 1] == '\n' {
            existing
        } else {
            existing + seq!['\n']
        },
{
    reveal_strlit("- [x] ");
    assert("- [x] "@ =~= seq!['-', ' ', '[', 'x', ']', ' ']);
    assert(todos.push(todo).drop_last() =~= todos);
    assert(existing.push('\n') =~= existing + seq!['\n']);
}

/// The lines counted are those that are not blank.
pub proof fn lemma_filled_lines_are(lines: Seq<Seq<char>>)
    ensures
        filled_lines(lines) == lines.filter(|l: Seq<char>| trim(l).len() > 0).len(),
    decreases lines.len(),
{
    reveal(Seq::filter);
    let filled = |l: Seq<char>| trim(l).len() > 0;
    if lines.len() > 0 {
        lemma_filled_lines_are(lines.drop_last());
        assert(filled(lines.last()) == (trim(lines.last()).len() > 0));
    }
}

/// Taking out an item moves the later ones up by one and leaves the earlier ones;
/// behind the end of the list there is none to take.
pub proof fn lemma_deletions_lead(
    list: &TodoList,
    page: usize,
    line: usize,
    after: &TodoList,
    r: bool,
)
    requires
        list.deletion_leads_to(page, line, after, r),
    ensures
        ({
            let i = 6 * page + line;
            &&& r <==> i < list@.len()
            &&& !r ==> after@ == list@
            &&& r ==> after@.len() == list@.len() - 1 && (forall|j: int|
                0 <= j < i ==> (#[trigger] after@[j]) == list@[j]) && (forall|j: int|
                i <= j < after@.len() ==> (#[trigger] after@[j]) == list@[j + 1])
        }),
{
}

} // verus!
