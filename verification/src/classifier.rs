//! The extension classifier: a table of rules from file extension to
//! destination directory, and the lookup that routes a path.

use crate::path::{
    extension, extension_of, is_parent_component, is_separator, joined, lemma_extension_of_named,
    lemma_lowercase_idempotent, lowercase,
};
use vstd::prelude::*;

verus! {

/// One classification rule: files with `extension` go to `destination`.
/// The extension is held in lower case.
#[derive(Debug, Clone, PartialEq, Eq)]
pub struct ClassificationRule {
    extension: String,
    destination: String,
}

/// The rules of a classifier, as a map from lower-case extension to
/// destination directory.
#[derive(Debug, Clone, PartialEq, Eq)]
pub struct RuleTable {
    rules: Vec<ClassificationRule>,
}

/// The map that a list of rules stands for, a later rule replacing an
/// earlier one for the same extension.
spec fn table_of(rules: Seq<(Seq<char>, Seq<char>)>) -> Map<Seq<char>, Seq<char>>
    decreases rules.len(),
{
    if rules.len() == 0 {
        Map::empty()
    } else {
        table_of(rules.drop_last()).insert(rules.last().0, rules.last().1)
    }
}

/// Whether every extension that `table` knows is in lower case.
pub open spec fn keys_lowercase(table: Map<Seq<char>, Seq<char>>) -> bool {
    forall|ext: Seq<char>| #[trigger] table.contains_key(ext) ==> lowercase(ext) == ext
}

/// The destination that `table` assigns to `path`: the entry for the path's
/// extension in lower case. A path without an extension, or with one that
/// the table does not list, has no destination.
pub open spec fn destination_for(table: Map<Seq<char>, Seq<char>>, path: Seq<char>) -> Option<
    Seq<char>,
> {
    match extension_of(path) {
        Some(ext) => if table.contains_key(lowercase(ext)) {
            Some(table[lowercase(ext)])
        } else {
            None
        },
        None => None,
    }
}

impl ClassificationRule {
    /// A rule that sends files with `extension`, in any case, to
    /// `destination`.
    pub fn new(extension: &str, destination: &str) -> (rule: ClassificationRule)
        ensures
            rule.spec_extension() == lowercase(extension@),
            rule.spec_destination() == destination@,
            lowercase(rule.spec_extension()) == rule.spec_extension(),
    {
        proof {
            lemma_lowercase_idempotent(extension@);
        }
        ClassificationRule {
            extension: extension.to_ascii_lowercase(),
            destination: destination.to_owned(),
        }
    }

    /// The rule's extension, in lower case.
    pub closed spec fn spec_extension(&self) -> Seq<char> {
        self.extension@
    }

    /// The rule's destination directory.
    pub closed spec fn spec_destination(&self) -> Seq<char> {
        self.destination@
    }

    /// The rule's extension, in lower case.
    pub fn extension(&self) -> (ext: &str)
        ensures
            ext@ == self.spec_extension(),
    {
        self.extension.as_str()
    }

    /// The rule's destination directory.
    pub fn destination(&self) -> (dir: &str)
        ensures
            dir@ == self.spec_destination(),
    {
        self.destination.as_str()
    }
}

impl View for RuleTable {
    type V = Map<Seq<char>, Seq<char>>;

    closed spec fn view(&self) -> Map<Seq<char>, Seq<char>> {
        table_of(self.pairs())
    }
}

impl RuleTable {
    /// The rules in the order in which they were added.
    closed spec fn pairs(&self) -> Seq<(Seq<char>, Seq<char>)> {
        Seq::new(self.rules@.len(), |i: int| (self.rules@[i].extension@, self.rules@[i].destination@))
    }

    /// A table without rules.
    pub fn new() -> (table: RuleTable)
        ensures
            table@ == Map::<Seq<char>, Seq<char>>::empty(),
            keys_lowercase(table@),
    {
        let table = RuleTable { rules: Vec::new() };
        assert(table.pairs() == Seq::<(Seq<char>, Seq<char>)>::empty());
        table
    }

    /// Adds `rule`. It replaces an earlier rule for the same extension, whose
    /// destination is handed back so that the duplicate can be reported.
    pub fn add(&mut self, rule: ClassificationRule) -> (replaced: Option<String>)
        ensures
            final(self)@ == old(self)@.insert(rule.spec_extension(), rule.spec_destination()),
            match replaced {
                Some(d) => old(self)@.contains_key(rule.spec_extension()) && old(self)@[rule.spec_extension()]
                    == d@,
                None => !old(self)@.contains_key(rule.spec_extension()),
            },
            keys_lowercase(old(self)@) && lowercase(rule.spec_extension()) == rule.spec_extension()
                ==> keys_lowercase(final(self)@),
    {
        let replaced = self.lookup(&rule.extension);
        let ghost before = self.pairs();
        self.rules.push(rule);
        proof {
            assert(self.pairs().drop_last() == before);
            assert(self.pairs().last() == (rule.spec_extension(), rule.spec_destination()));
        }
        replaced
    }

    /// Adds the rule that files with `extension`, in any case, go to
    /// `destination`. It replaces an earlier rule for the same extension,
    /// whose destination is handed back so that the duplicate can be
    /// reported.
    pub fn insert(&mut self, extension: &str, destination: &str) -> (replaced: Option<String>)
        ensures
            final(self)@ == old(self)@.insert(lowercase(extension@), destination@),
            match replaced {
                Some(d) => old(self)@.contains_key(lowercase(extension@)) && old(self)@[lowercase(
                    extension@,
                )] == d@,
                None => !old(self)@.contains_key(lowercase(extension@)),
            },
            keys_lowercase(old(self)@) ==> keys_lowercase(final(self)@),
    {
        self.add(ClassificationRule::new(extension, destination))
    }

    /// The destination directory for files with `extension`, in any case.
    pub fn destination(&self, extension: &str) -> (dir: Option<String>)
        ensures
            match dir {
                Some(d) => self@.contains_key(lowercase(extension@)) && self@[lowercase(
                    extension@,
                )] == d@,
                None => !self@.contains_key(lowercase(extension@)),
            },
    {
        let key = extension.to_ascii_lowercase();
        self.lookup(&key)
    }

    /// The destination listed under exactly `key`.
    fn lookup(&self, key: &String) -> (dir: Option<String>)
        ensures
            match dir {
                Some(d) => self@.contains_key(key@) && self@[key@] == d@,
                None => !self@.contains_key(key@),
            },
    {
        let mut i = self.rules.len();
        while i > 0
            invariant
                i <= self.rules.len(),
                forall|j: int| i <= j < self.rules.len() ==> (#[trigger] self.pairs()[j]).0 != key@,
            decreases i,
        {
            i = i - 1;
            if self.rules[i].extension == *key {
                proof {
                    lemma_table_of_tail(self.pairs(), key@, i + 1);
                    assert(self.pairs().take(i + 1).drop_last() == self.pairs().take(i as int));
                }
                return Some(self.rules[i].destination.clone());
            }
        }
        proof {
            lemma_table_of_tail(self.pairs(), key@, 0);
            assert(self.pairs().take(0) == Seq::<(Seq<char>, Seq<char>)>::empty());
        }
        None
    }

    /// The destination directory for the file at `path`, chosen by the
    /// path's extension without regard to case.
    pub fn classify(&self, path: &str) -> (dir: Option<String>)
        ensures
            match dir {
                Some(d) => destination_for(self@, path@) == Some(d@),
                None => destination_for(self@, path@) is None,
            },
    {
        match extension(path) {
            Some(ext) => self.destination(ext.as_str()),
            None => None,
        }
    }
}

/// Rules from index `from` on that do not name `ext` do not change what the
/// table says of `ext`.
proof fn lemma_table_of_tail(rules: Seq<(Seq<char>, Seq<char>)>, ext: Seq<char>, from: int)
    requires
        0 <= from <= rules.len(),
        forall|j: int| from <= j < rules.len() ==> (#[trigger] rules[j]).0 != ext,
    ensures
        table_of(rules).contains_key(ext) == table_of(rules.take(from)).contains_key(ext),
        table_of(rules).contains_key(ext) ==> table_of(rules)[ext] == table_of(rules.take(from))[ext],
    decreases rules.len() - from,
{
    if from == rules.len() {
        assert(rules.take(from) == rules);
    } else {
        let front = rules.drop_last();
        assert(rules.last() == rules[rules.len() - 1]);
        lemma_table_of_tail(front, ext, from);
        assert(front.take(from) == rules.take(from));
    }
}

/// Routing by extension, without regard to case: a file whose name is a
/// stem, a `.` and an extension goes to the destination that the table
/// lists for that extension in lower case, however the extension is
/// written and in whatever directory the file lies. The stem must not be
/// empty, neither part may hold a separator, the extension holds no `.`,
/// and the name as a whole is not `..`.
pub proof fn lemma_listed_extension_is_routed(
    table: Map<Seq<char>, Seq<char>>,
    dir: Seq<char>,
    stem: Seq<char>,
    written: Seq<char>,
)
    requires
        table.contains_key(lowercase(written)),
        stem.len() > 0,
        forall|j: int| 0 <= j < stem.len() ==> !is_separator(#[trigger] stem[j]),
        forall|j: int| 0 <= j < written.len() ==> !is_separator(#[trigger] written[j]),
        forall|j: int| 0 <= j < written.len() ==> #[trigger] written[j] != '.',
        !is_parent_component(stem + seq!['.'] + written),
    ensures
        destination_for(table, joined(dir, stem + seq!['.'] + written)) == Some(
            table[lowercase(written)],
        ),
{
    lemma_extension_of_named(dir, stem, written);
}

/// Two paths whose extensions differ in case only have the same
/// destination, or both have none.
pub proof fn lemma_case_does_not_matter(
    table: Map<Seq<char>, Seq<char>>,
    path: Seq<char>,
    other: Seq<char>,
)
    requires
        extension_of(path) is Some,
        extension_of(other) is Some,
        lowercase(extension_of(path)->0) == lowercase(extension_of(other)->0),
    ensures
        destination_for(table, path) == destination_for(table, other),
{
}

/// A path whose extension the table does not list, in any case, has no
/// destination; nor has a path without an extension.
pub proof fn lemma_unlisted_extension_has_no_destination(
    table: Map<Seq<char>, Seq<char>>,
    path: Seq<char>,
)
    requires
        extension_of(path) matches Some(ext) ==> !table.contains_key(lowercase(ext)),
    ensures
        destination_for(table, path) is None,
{
}

} // verus!
