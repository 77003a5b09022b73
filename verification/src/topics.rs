//! A table from topics to the names subscribed to them, each name at most
//! once per topic.
use vstd::prelude::*;

verus! {

/// The views of a list of names.
pub open spec fn names(list: Seq<String>) -> Seq<Seq<char>> {
    list.map_values(|name: String| name@)
}

/// `list` without any occurrence of `name`, the others kept in order.
pub open spec fn without(list: Seq<Seq<char>>, name: Seq<char>) -> Seq<Seq<char>> {
    list.filter(|other: Seq<char>| other != name)
}

/// `list` with `name` added at the end, unless it is there already.
pub open spec fn with_name(list: Seq<Seq<char>>, name: Seq<char>) -> Seq<Seq<char>> {
    if list.contains(name) {
        list
    } else {
        list.push(name)
    }
}

pub proof fn lemma_push_contains(list: Seq<Seq<char>>, name: Seq<char>, x: Seq<char>)
    ensures
        list.push(name).contains(x) <==> list.contains(x) || x == name,
{
    if list.contains(x) {
        let k = choose|k: int| 0 <= k < list.len() && list[k] == x;
        assert(list.push(name)[k] == x);
    }
    if x == name {
        assert(list.push(name)[list.len() as int] == x);
    }
    if list.push(name).contains(x) && x != name {
        let k = choose|k: int| 0 <= k < list.len() + 1 && list.push(name)[k] == x;
        assert(list[k] == x);
    }
}

pub proof fn lemma_with_name_contains(list: Seq<Seq<char>>, name: Seq<char>, x: Seq<char>)
    ensures
        with_name(list, name).contains(x) <==> list.contains(x) || x == name,
{
    lemma_push_contains(list, name, x);
}

pub open spec fn no_duplicates(list: Seq<Seq<char>>) -> bool {
    forall|i: int, j: int| 0 <= i < j < list.len() ==> list[i] != list[j]
}

pub proof fn lemma_without_step(list: Seq<Seq<char>>, name: Seq<char>, i: int)
    requires
        0 <= i < list.len(),
    ensures
        without(list.take(i + 1), name) == if list[i] != name {
            without(list.take(i), name).push(list[i])
        } else {
            without(list.take(i), name)
        },
{
    reveal(Seq::filter);
    assert(list.take(i + 1).drop_last() =~= list.take(i));
}

pub proof fn lemma_without_facts(list: Seq<Seq<char>>, name: Seq<char>)
    ensures
        !without(list, name).contains(name),
        forall|x: Seq<char>| x != name ==> (list.contains(x) <==> #[trigger] without(list, name).contains(x)),
        no_duplicates(list) ==> no_duplicates(without(list, name)),
        without(list, name).len() <= list.len(),
        !list.contains(name) ==> without(list, name) == list,
    decreases list.len(),
{
    reveal(Seq::filter);
    if list.len() > 0 {
        let rest = list.drop_last();
        lemma_without_facts(rest, name);
        assert forall|x: Seq<char>| x != name implies (list.contains(x) <==> #[trigger] without(list, name).contains(x)) by {
            if list.contains(x) {
                let k = choose|k: int| 0 <= k < list.len() && list[k] == x;
                if k < list.len() - 1 {
                    assert(rest[k] == x);
                    assert(rest.contains(x));
                } else {
                    assert(without(list, name).last() == x);
                }
            }
            if without(list, name).contains(x) && list.last() != x {
                assert(without(rest, name).contains(x));
                let k = choose|k: int| 0 <= k < rest.len() && rest[k] == x;
                assert(list[k] == x);
            }
        }
        if no_duplicates(list) {
            assert(no_duplicates(rest));
            if list.last() != name {
                assert(!rest.contains(list.last())) by {
                    if rest.contains(list.last()) {
                        let k = choose|k: int| 0 <= k < rest.len() && rest[k] == list.last();
                        assert(list[k] == list[list.len() - 1]);
                    }
                }
                assert(!without(rest, name).contains(list.last()));
            }
        }
        if !list.contains(name) {
            assert(!rest.contains(name)) by {
                if rest.contains(name) {
                    let k = choose|k: int| 0 <= k < rest.len() && rest[k] == name;
                    assert(list[k] == name);
                }
            }
            assert(list.last() != name);
            assert(list =~= rest.push(list.last()));
        }
    }
}

/// Copies `list` without `name`.
pub fn retain_others(list: &Vec<String>, name: &String) -> (kept: Vec<String>)
    ensures
        names(kept@) == without(names(list@), name@),
{
    let mut kept: Vec<String> = Vec::new();
    let mut index: usize = 0;
    while index < list.len()
        invariant
            index <= list@.len(),
            names(kept@) == without(names(list@).take(index as int), name@),
        decreases list@.len() - index,
    {
        proof {
            lemma_without_step(names(list@), name@, index as int);
        }
        if list[index] != *name {
            kept.push(list[index].clone());
            assert(names(kept@) =~= without(names(list@).take(index as int), name@).push(list@[index as int]@));
        }
        index = index + 1;
    }
    assert(names(list@).take(list@.len() as int) =~= names(list@));
    kept
}

/// Whether `name` is in `list`.
pub fn contains_name(list: &Vec<String>, name: &String) -> (found: bool)
    ensures
        found == names(list@).contains(name@),
{
    let mut index: usize = 0;
    while index < list.len()
        invariant
            index <= list@.len(),
            forall|j: int| 0 <= j < index ==> names(list@)[j] != name@,
        decreases list@.len() - index,
    {
        if list[index] == *name {
            assert(names(list@)[index as int] == name@);
            return true;
        }
        index = index + 1;
    }
    false
}

/// Copies a list of names.
pub fn copy_names(list: &Vec<String>) -> (copy: Vec<String>)
    ensures
        names(copy@) == names(list@),
{
    let mut copy: Vec<String> = Vec::new();
    let mut index: usize = 0;
    while index < list.len()
        invariant
            index <= list@.len(),
            copy@.len() == index,
            names(copy@) == names(list@).take(index as int),
        decreases list@.len() - index,
    {
        let ghost before = copy@;
        copy.push(list[index].clone());
        index = index + 1;
        assert(copy@ == before.push(copy@[index - 1]));
        assert(names(copy@) =~= names(list@).take(index as int)) by {
            assert forall|j: int| 0 <= j < index implies names(copy@)[j] == names(list@).take(index as int)[j] by {
                if j < index - 1 {
                    assert(copy@[j] == before[j]);
                }
            }
        }
    }
    assert(names(list@).take(list@.len() as int) =~= names(list@));
    copy
}

pub struct TopicEntry {
    pub topic: String,
    pub subscribers: Vec<String>,
}

/// Topics and their subscribers, in the order topics were first subscribed.
pub struct TopicTable {
    pub entries: Vec<TopicEntry>,
}

impl TopicTable {
    /// Topics are distinct, and no name is subscribed twice to one topic.
    pub open spec fn wf(&self) -> bool {
        &&& forall|i: int, j: int|
            0 <= i < j < self.entries@.len() ==> #[trigger] self.entries@[i].topic@
                != #[trigger] self.entries@[j].topic@
        &&& forall|i: int| 0 <= i < self.entries@.len() ==> no_duplicates(names((#[trigger] self.entries@[i]).subscribers@))
    }

    pub open spec fn has_topic(&self, topic: Seq<char>) -> bool {
        exists|i: int| 0 <= i < self.entries@.len() && #[trigger] self.entries@[i].topic@ == topic
    }

    pub open spec fn index_of(&self, topic: Seq<char>) -> int {
        choose|i: int| 0 <= i < self.entries@.len() && #[trigger] self.entries@[i].topic@ == topic
    }

    /// The subscribers of `topic`, empty when it has no entry.
    pub open spec fn subscribers_of(&self, topic: Seq<char>) -> Seq<Seq<char>> {
        if self.has_topic(topic) {
            names(self.entries@[self.index_of(topic)].subscribers@)
        } else {
            Seq::empty()
        }
    }

    /// The topics, in table order.
    pub open spec fn topics(&self) -> Seq<Seq<char>> {
        self.entries@.map_values(|entry: TopicEntry| entry.topic@)
    }

    pub proof fn lemma_index_of(&self, i: int)
        requires
            self.wf(),
            0 <= i < self.entries@.len(),
        ensures
            self.has_topic(self.entries@[i].topic@),
            self.index_of(self.entries@[i].topic@) == i,
            self.subscribers_of(self.entries@[i].topic@) == names(self.entries@[i].subscribers@),
    {
        let topic = self.entries@[i].topic@;
        assert(self.has_topic(topic));
        let k = self.index_of(topic);
        if k != i {
            if k < i {
                assert(self.entries@[k].topic@ != self.entries@[i].topic@);
            } else {
                assert(self.entries@[i].topic@ != self.entries@[k].topic@);
            }
        }
    }

    /// An empty table.
    pub fn new() -> (table: TopicTable)
        ensures
            table.wf(),
            forall|topic: Seq<char>| !table.has_topic(topic),
    {
        TopicTable { entries: Vec::new() }
    }

    /// The position of `topic`'s entry, if it has one.
    pub fn find(&self, topic: &String) -> (found: Option<usize>)
        requires
            self.wf(),
        ensures
            found is None <==> !self.has_topic(topic@),
            found matches Some(i) ==> i < self.entries@.len() && self.entries@[i as int].topic@ == topic@
                && self.index_of(topic@) == i,
    {
        let mut index: usize = 0;
        while index < self.entries.len()
            invariant
                self.wf(),
                index <= self.entries@.len(),
                forall|j: int| 0 <= j < index ==> #[trigger] self.entries@[j].topic@ != topic@,
            decreases self.entries@.len() - index,
        {
            if self.entries[index].topic == *topic {
                proof {
                    self.lemma_index_of(index as int);
                }
                return Some(index);
            }
            index = index + 1;
        }
        None
    }

    /// The subscribers of `topic`, if it has an entry.
    pub fn subscribers(&self, topic: &String) -> (subscribers: Option<&Vec<String>>)
        requires
            self.wf(),
        ensures
            subscribers is None <==> !self.has_topic(topic@),
            subscribers matches Some(list) ==> names(list@) == self.subscribers_of(topic@),
    {
        match self.find(topic) {
            Some(index) => {
                proof {
                    self.lemma_index_of(index as int);
                }
                Some(&self.entries[index].subscribers)
            },
            None => None,
        }
    }

    /// Replaces the subscribers at `index`, keeping every other entry.
    fn replace_subscribers(&mut self, index: usize, subscribers: Vec<String>)
        requires
            old(self).wf(),
            index < old(self).entries@.len(),
            no_duplicates(names(subscribers@)),
        ensures
            final(self).wf(),
            final(self).entries@.len() == old(self).entries@.len(),
            final(self).topics() == old(self).topics(),
            forall|topic: Seq<char>| #[trigger] final(self).has_topic(topic) == old(self).has_topic(topic),
            final(self).subscribers_of(old(self).entries@[index as int].topic@) == names(subscribers@),
            forall|topic: Seq<char>|
                topic != old(self).entries@[index as int].topic@ ==> #[trigger] final(self).subscribers_of(topic)
                    == old(self).subscribers_of(topic),
    {
        let ghost before = *self;
        let topic = self.entries[index].topic.clone();
        self.entries.set(index, TopicEntry { topic, subscribers });
        proof {
            assert(self.topics() =~= before.topics()) by {
                assert forall|i: int| 0 <= i < self.entries@.len() implies self.topics()[i] == before.topics()[i] by {}
            }
            assert forall|t: Seq<char>| #[trigger] self.has_topic(t) == before.has_topic(t) by {
                if self.has_topic(t) {
                    let k = choose|k: int| 0 <= k < self.entries@.len() && #[trigger] self.entries@[k].topic@ == t;
                    assert(before.entries@[k].topic@ == t);
                }
                if before.has_topic(t) {
                    let k = choose|k: int| 0 <= k < before.entries@.len() && #[trigger] before.entries@[k].topic@ == t;
                    assert(self.entries@[k].topic@ == t);
                }
            }
            self.lemma_index_of(index as int);
            assert forall|t: Seq<char>| t != before.entries@[index as int].topic@ implies #[trigger] self.subscribers_of(t)
                == before.subscribers_of(t) by {
                if self.has_topic(t) {
                    let k = choose|k: int| 0 <= k < self.entries@.len() && #[trigger] self.entries@[k].topic@ == t;
                    self.lemma_index_of(k);
                    before.lemma_index_of(k);
                }
            }
        }
    }

    /// Subscribes `name` to `topic`; a name already subscribed stays once.
    pub fn subscribe(&mut self, name: String, topic: String)
        requires
            old(self).wf(),
        ensures
            final(self).wf(),
            final(self).has_topic(topic@),
            final(self).subscribers_of(topic@) == with_name(old(self).subscribers_of(topic@), name@),
            forall|other: Seq<char>| other != topic@ ==> #[trigger] final(self).has_topic(other) == old(self).has_topic(other),
            forall|other: Seq<char>|
                other != topic@ ==> #[trigger] final(self).subscribers_of(other) == old(self).subscribers_of(other),
    {
        match self.find(&topic) {
            Some(index) => {
                proof {
                    self.lemma_index_of(index as int);
                }
                if !contains_name(&self.entries[index].subscribers, &name) {
                    let mut subscribers = copy_names(&self.entries[index].subscribers);
                    let ghost before = names(subscribers@);
                    subscribers.push(name);
                    proof {
                        assert(names(subscribers@) =~= before.push(name@));
                        assert forall|i: int, j: int| 0 <= i < j < names(subscribers@).len() implies names(subscribers@)[i]
                            != names(subscribers@)[j] by {
                            if j == names(subscribers@).len() - 1 {
                                assert(before[i] == names(subscribers@)[i]);
                            }
                        }
                    }
                    self.replace_subscribers(index, subscribers);
                }
            },
            None => {
                let ghost before = *self;
                let mut subscribers: Vec<String> = Vec::new();
                subscribers.push(name);
                proof {
                    assert(names(subscribers@) =~= seq![name@]);
                }
                self.entries.push(TopicEntry { topic, subscribers });
                proof {
                    let n = self.entries@.len() - 1;
                    assert forall|i: int, j: int|
                        0 <= i < j < self.entries@.len() implies #[trigger] self.entries@[i].topic@
                            != #[trigger] self.entries@[j].topic@ by {
                        if j == n {
                            assert(before.entries@[i].topic@ == self.entries@[i].topic@);
                        }
                    }
                    self.lemma_index_of(n);
                    assert(with_name(Seq::<Seq<char>>::empty(), name@) =~= seq![name@]);
                    assert forall|t: Seq<char>| t != topic@ implies #[trigger] self.has_topic(t) == before.has_topic(t)
                        && self.subscribers_of(t) == before.subscribers_of(t) by {
                        if self.has_topic(t) {
                            let k = choose|k: int| 0 <= k < self.entries@.len() && #[trigger] self.entries@[k].topic@ == t;
                            assert(k != n);
                            assert(before.entries@[k].topic@ == t);
                            self.lemma_index_of(k);
                            before.lemma_index_of(k);
                        }
                        if before.has_topic(t) {
                            let k = choose|k: int| 0 <= k < before.entries@.len() && #[trigger] before.entries@[k].topic@ == t;
                            assert(self.entries@[k].topic@ == t);
                        }
                    }
                }
            },
        }
    }

    /// Unsubscribes `name` from `topic`; the topic keeps its entry.
    pub fn unsubscribe(&mut self, name: &String, topic: &String)
        requires
            old(self).wf(),
        ensures
            final(self).wf(),
            forall|other: Seq<char>| #[trigger] final(self).has_topic(other) == old(self).has_topic(other),
            final(self).subscribers_of(topic@) == without(old(self).subscribers_of(topic@), name@),
            forall|other: Seq<char>|
                other != topic@ ==> #[trigger] final(self).subscribers_of(other) == old(self).subscribers_of(other),
    {
        match self.find(topic) {
            Some(index) => {
                proof {
                    self.lemma_index_of(index as int);
                    lemma_without_facts(names(self.entries@[index as int].subscribers@), name@);
                }
                let kept = retain_others(&self.entries[index].subscribers, name);
                self.replace_subscribers(index, kept);
            },
            None => {
                proof {
                    reveal(Seq::filter);
                    assert(without(Seq::<Seq<char>>::empty(), name@) =~= Seq::<Seq<char>>::empty());
                }
            },
        }
    }

    /// Removes the entry at `index`.
    fn remove_entry(&mut self, index: usize)
        requires
            old(self).wf(),
            index < old(self).entries@.len(),
        ensures
            final(self).wf(),
            !final(self).has_topic(old(self).entries@[index as int].topic@),
            forall|topic: Seq<char>|
                topic != old(self).entries@[index as int].topic@ ==> #[trigger] final(self).has_topic(topic)
                    == old(self).has_topic(topic) && final(self).subscribers_of(topic) == old(self).subscribers_of(topic),
            final(self).topics() == old(self).topics().remove(index as int),
    {
        let ghost before = *self;
        let ghost removed = self.entries@[index as int].topic@;
        self.entries.remove(index);
        proof {
            assert(self.topics() =~= before.topics().remove(index as int));
            assert(!self.has_topic(removed)) by {
                if self.has_topic(removed) {
                    let k = choose|k: int| 0 <= k < self.entries@.len() && #[trigger] self.entries@[k].topic@ == removed;
                    if k < index {
                        assert(before.entries@[k].topic@ != before.entries@[index as int].topic@);
                    } else {
                        assert(before.entries@[index as int].topic@ != before.entries@[k + 1].topic@);
                    }
                }
            }
            assert forall|t: Seq<char>| t != removed implies #[trigger] self.has_topic(t) == before.has_topic(t)
                && self.subscribers_of(t) == before.subscribers_of(t) by {
                if self.has_topic(t) {
                    let k = choose|k: int| 0 <= k < self.entries@.len() && #[trigger] self.entries@[k].topic@ == t;
                    let kk = if k < index { k } else { k + 1 };
                    assert(before.entries@[kk].topic@ == t);
                    self.lemma_index_of(k);
                    before.lemma_index_of(kk);
                }
                if before.has_topic(t) {
                    let k = choose|k: int| 0 <= k < before.entries@.len() && #[trigger] before.entries@[k].topic@ == t;
                    assert(k != index);
                    if k < index {
                        assert(self.entries@[k].topic@ == t);
                    } else {
                        assert(self.entries@[k - 1].topic@ == t);
                    }
                }
            }
        }
    }

    /// Unsubscribes `name` from `topic`, dropping the topic's entry when no
    /// subscriber is left; says whether it dropped it.
    pub fn unsubscribe_and_prune(&mut self, name: &String, topic: &String) -> (orphaned: bool)
        requires
            old(self).wf(),
        ensures
            final(self).wf(),
            orphaned <==> old(self).has_topic(topic@) && without(old(self).subscribers_of(topic@), name@).len() == 0,
            final(self).has_topic(topic@) <==> old(self).has_topic(topic@) && !orphaned,
            final(self).has_topic(topic@) ==> final(self).subscribers_of(topic@) == without(old(self).subscribers_of(topic@), name@),
            forall|other: Seq<char>|
                other != topic@ ==> #[trigger] final(self).has_topic(other) == old(self).has_topic(other)
                    && final(self).subscribers_of(other) == old(self).subscribers_of(other),
    {
        match self.find(topic) {
            Some(index) => {
                proof {
                    self.lemma_index_of(index as int);
                    lemma_without_facts(names(self.entries@[index as int].subscribers@), name@);
                }
                let kept = retain_others(&self.entries[index].subscribers, name);
                if kept.len() == 0 {
                    self.remove_entry(index);
                    true
                } else {
                    self.replace_subscribers(index, kept);
                    false
                }
            },
            None => false,
        }
    }

    /// The topics, in table order.
    pub fn topic_names(&self) -> (list: Vec<String>)
        ensures
            names(list@) == self.topics(),
    {
        let mut list: Vec<String> = Vec::new();
        let mut index: usize = 0;
        while index < self.entries.len()
            invariant
                index <= self.entries@.len(),
                list@.len() == index,
                names(list@) == self.topics().take(index as int),
            decreases self.entries@.len() - index,
        {
            let ghost before = list@;
            list.push(self.entries[index].topic.clone());
            index = index + 1;
            assert(names(list@) =~= self.topics().take(index as int)) by {
                assert forall|j: int| 0 <= j < index implies names(list@)[j] == self.topics().take(index as int)[j] by {
                    if j < index - 1 {
                        assert(list@[j] == before[j]);
                    }
                }
            }
        }
        assert(self.topics().take(self.entries@.len() as int) =~= self.topics());
        list
    }

    /// A topic has an entry exactly when it is one of the table's topics,
    /// which are distinct.
    pub proof fn lemma_topics(&self)
        requires
            self.wf(),
        ensures
            no_duplicates(self.topics()),
            forall|topic: Seq<char>| #[trigger] self.has_topic(topic) <==> self.topics().contains(topic),
    {
        assert forall|topic: Seq<char>| #[trigger] self.has_topic(topic) <==> self.topics().contains(topic) by {
            if self.has_topic(topic) {
                let k = choose|k: int| 0 <= k < self.entries@.len() && #[trigger] self.entries@[k].topic@ == topic;
                assert(self.topics()[k] == topic);
            }
            if self.topics().contains(topic) {
                let k = choose|k: int| 0 <= k < self.topics().len() && self.topics()[k] == topic;
                assert(self.entries@[k].topic@ == topic);
            }
        }
        assert forall|i: int, j: int| 0 <= i < j < self.topics().len() implies self.topics()[i] != self.topics()[j] by {
            assert(self.entries@[i].topic@ != self.entries@[j].topic@);
        }
    }

    /// Unsubscribes `name` from every topic and drops the entries left
    /// without subscribers; returns the topics it dropped, each once.
    pub fn remove_subscriber_and_prune(&mut self, name: &String) -> (orphaned: Vec<String>)
        requires
            old(self).wf(),
        ensures
            final(self).wf(),
            forall|topic: Seq<char>|
                #[trigger] final(self).has_topic(topic) <==> old(self).has_topic(topic) && without(
                    old(self).subscribers_of(topic),
                    name@,
                ).len() > 0,
            forall|topic: Seq<char>|
                final(self).has_topic(topic) ==> #[trigger] final(self).subscribers_of(topic) == without(
                    old(self).subscribers_of(topic),
                    name@,
                ),
            forall|topic: Seq<char>|
                #[trigger] names(orphaned@).contains(topic) <==> old(self).has_topic(topic) && without(
                    old(self).subscribers_of(topic),
                    name@,
                ).len() == 0,
            no_duplicates(names(orphaned@)),
    {
        let ghost start = *self;
        proof {
            start.lemma_topics();
        }
        let topics = self.topic_names();
        let mut orphaned: Vec<String> = Vec::new();
        let mut index: usize = 0;
        while index < topics.len()
            invariant
                self.wf(),
                start.wf(),
                names(topics@) == start.topics(),
                no_duplicates(start.topics()),
                forall|topic: Seq<char>| #[trigger] start.has_topic(topic) <==> start.topics().contains(topic),
                index <= topics@.len(),
                forall|k: int|
                    0 <= k < index ==> {
                        let topic = #[trigger] names(topics@)[k];
                        &&& (self.has_topic(topic) <==> without(start.subscribers_of(topic), name@).len() > 0)
                        &&& (self.has_topic(topic) ==> self.subscribers_of(topic) == without(
                            start.subscribers_of(topic),
                            name@,
                        ))
                        &&& (names(orphaned@).contains(topic) <==> !self.has_topic(topic))
                    },
                forall|k: int|
                    index <= k < topics@.len() ==> {
                        let topic = #[trigger] names(topics@)[k];
                        &&& self.has_topic(topic)
                        &&& self.subscribers_of(topic) == start.subscribers_of(topic)
                        &&& !names(orphaned@).contains(topic)
                    },
                forall|topic: Seq<char>| !start.has_topic(topic) ==> !#[trigger] self.has_topic(topic),
                forall|topic: Seq<char>| #[trigger] names(orphaned@).contains(topic) ==> start.has_topic(topic),
                no_duplicates(names(orphaned@)),
            decreases topics@.len() - index,
        {
            let ghost before = *self;
            let ghost before_orphaned = names(orphaned@);
            let ghost current = names(topics@)[index as int];
            assert(start.topics()[index as int] == current);
            assert(start.has_topic(current));
            let dropped = self.unsubscribe_and_prune(name, &topics[index]);
            if dropped {
                orphaned.push(topics[index].clone());
                proof {
                    assert(names(orphaned@) =~= before_orphaned.push(current));
                    assert forall|topic: Seq<char>| #[trigger] names(orphaned@).contains(topic) <==> before_orphaned.contains(topic) || topic == current by {
                        lemma_push_contains(before_orphaned, current, topic);
                    }
                }
            }
            proof {
                assert forall|k: int| 0 <= k < index + 1 implies {
                    let topic = #[trigger] names(topics@)[k];
                    &&& (self.has_topic(topic) <==> without(start.subscribers_of(topic), name@).len() > 0)
                    &&& (self.has_topic(topic) ==> self.subscribers_of(topic) == without(
                        start.subscribers_of(topic),
                        name@,
                    ))
                    &&& (names(orphaned@).contains(topic) <==> !self.has_topic(topic))
                } by {
                    if k < index {
                        assert(names(topics@)[k] != current);
                    }
                }
                assert forall|k: int| index + 1 <= k < topics@.len() implies {
                    let topic = #[trigger] names(topics@)[k];
                    &&& self.has_topic(topic)
                    &&& self.subscribers_of(topic) == start.subscribers_of(topic)
                    &&& !names(orphaned@).contains(topic)
                } by {
                    assert(names(topics@)[k] != current);
                }
                assert forall|topic: Seq<char>| !start.has_topic(topic) implies !#[trigger] self.has_topic(topic) by {
                    assert(topic != current);
                }
                assert forall|i: int, j: int| 0 <= i < j < names(orphaned@).len() implies names(orphaned@)[i] != names(orphaned@)[j] by {
                    if dropped && j == names(orphaned@).len() - 1 {
                        assert(before_orphaned.contains(names(orphaned@)[i]));
                        assert(before_orphaned[i] == names(orphaned@)[i]);
                    } else {
                        assert(before_orphaned[i] == names(orphaned@)[i]);
                        assert(before_orphaned[j] == names(orphaned@)[j]);
                    }
                }
            }
            index = index + 1;
        }
        proof {
            assert forall|topic: Seq<char>|
                #[trigger] self.has_topic(topic) <==> start.has_topic(topic) && without(start.subscribers_of(topic), name@).len() > 0 by {
                if start.has_topic(topic) {
                    let k = choose|k: int| 0 <= k < start.topics().len() && start.topics()[k] == topic;
                    assert(names(topics@)[k] == topic);
                }
            }
            assert forall|topic: Seq<char>|
                self.has_topic(topic) implies #[trigger] self.subscribers_of(topic) == without(start.subscribers_of(topic), name@) by {
                let k = choose|k: int| 0 <= k < start.topics().len() && start.topics()[k] == topic;
                assert(names(topics@)[k] == topic);
            }
            assert forall|topic: Seq<char>|
                #[trigger] names(orphaned@).contains(topic) <==> start.has_topic(topic) && without(start.subscribers_of(topic), name@).len() == 0 by {
                if start.has_topic(topic) {
                    let k = choose|k: int| 0 <= k < start.topics().len() && start.topics()[k] == topic;
                    assert(names(topics@)[k] == topic);
                }
            }
        }
        orphaned
    }

    /// Unsubscribes `name` from every topic; every topic keeps its entry.
    pub fn remove_subscriber(&mut self, name: &String)
        requires
            old(self).wf(),
        ensures
            final(self).wf(),
            forall|topic: Seq<char>| #[trigger] final(self).has_topic(topic) == old(self).has_topic(topic),
            forall|topic: Seq<char>|
                #[trigger] final(self).subscribers_of(topic) == without(old(self).subscribers_of(topic), name@),
    {
        let ghost start = *self;
        let mut index: usize = 0;
        while index < self.entries.len()
            invariant
                self.wf(),
                self.entries@.len() == start.entries@.len(),
                0 <= index <= self.entries@.len(),
                forall|i: int| 0 <= i < self.entries@.len() ==> #[trigger] self.entries@[i].topic@ == start.entries@[i].topic@,
                forall|i: int|
                    0 <= i < index ==> names(#[trigger] self.entries@[i].subscribers@) == without(
                        names(start.entries@[i].subscribers@),
                        name@,
                    ),
                forall|i: int|
                    index <= i < self.entries@.len() ==> #[trigger] self.entries@[i].subscribers@
                        == start.entries@[i].subscribers@,
            decreases self.entries@.len() - index,
        {
            proof {
                lemma_without_facts(names(self.entries@[index as int].subscribers@), name@);
            }
            let kept = retain_others(&self.entries[index].subscribers, name);
            let ghost before = *self;
            let topic = self.entries[index].topic.clone();
            self.entries.set(index, TopicEntry { topic, subscribers: kept });
            proof {
                assert forall|i: int| 0 <= i < self.entries@.len() implies no_duplicates(
                    names((#[trigger] self.entries@[i]).subscribers@),
                ) by {
                    if i != index {
                        assert(self.entries@[i] == before.entries@[i]);
                    }
                }
                assert forall|i: int, j: int|
                    0 <= i < j < self.entries@.len() implies #[trigger] self.entries@[i].topic@
                        != #[trigger] self.entries@[j].topic@ by {
                    assert(before.entries@[i].topic@ != before.entries@[j].topic@);
                }
            }
            index = index + 1;
        }
        proof {
            assert forall|t: Seq<char>| #[trigger] self.has_topic(t) == start.has_topic(t) by {
                if self.has_topic(t) {
                    let k = choose|k: int| 0 <= k < self.entries@.len() && #[trigger] self.entries@[k].topic@ == t;
                    assert(start.entries@[k].topic@ == t);
                }
                if start.has_topic(t) {
                    let k = choose|k: int| 0 <= k < start.entries@.len() && #[trigger] start.entries@[k].topic@ == t;
                    assert(self.entries@[k].topic@ == t);
                }
            }
            assert forall|t: Seq<char>| #[trigger] self.subscribers_of(t) == without(start.subscribers_of(t), name@) by {
                if self.has_topic(t) {
                    let k = choose|k: int| 0 <= k < self.entries@.len() && #[trigger] self.entries@[k].topic@ == t;
                    self.lemma_index_of(k);
                    start.lemma_index_of(k);
                } else {
                    reveal(Seq::filter);
                    assert(without(Seq::<Seq<char>>::empty(), name@) =~= Seq::<Seq<char>>::empty());
                }
            }
        }
    }
}

} // verus!
