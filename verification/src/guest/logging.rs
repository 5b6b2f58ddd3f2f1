//! Log lines, handed to the app through a callback.
use vstd::prelude::*;

verus! {

#[derive(Clone, Copy, Debug, PartialEq, Eq, Structural)]
pub enum LogLevel {
    Error,
    Warn,
    Info,
    Debug,
    Trace,
}

/// Where log lines go. Called from the client's threads.
pub trait LogSink {
    /// `target` is the Rust module the line came from; `message` carries the event's fields
    /// already rendered.
    fn log(&self, level: LogLevel, target: String, message: String);
}

/// An event's fields as one line: the message first, then `key=value`.
#[derive(Debug)]
pub struct Line {
    pub message: String,
    pub fields: Vec<String>,
}

impl Default for Line {
    fn default() -> (r: Line)
        ensures
            r.message@ == Seq::<char>::empty(),
            r.fields@.len() == 0,
    {
        let message = String::new();
        assert(message@ =~= Seq::<char>::empty());
        Line { message, fields: Vec::new() }
    }
}

/// A line with one field behind it, separated by a space from what is there.
pub open spec fn with_field(line: Seq<char>, field: Seq<char>) -> Seq<char> {
    if line.len() == 0 {
        field
    } else {
        line.push(' ') + field
    }
}

/// A message with the first `n` fields behind it.
pub open spec fn rendered(message: Seq<char>, fields: Seq<Seq<char>>, n: int) -> Seq<char>
    decreases n,
{
    if n <= 0 {
        message
    } else {
        with_field(rendered(message, fields, n - 1), fields[n - 1])
    }
}

impl Line {
    /// Sets the message, or adds a field, by the field's name.
    pub fn record(&mut self, name: &str, value: &str)
        ensures
            if name@ == "message"@ {
                final(self).message@ == value@ && final(self).fields == old(self).fields
            } else {
                final(self).message == old(self).message && final(self).fields.deep_view() == old(
                    self,
                ).fields.deep_view().push(name@ + "="@ + value@)
            },
    {
        if crate::text::same_text(name, "message") {
            self.message = crate::text::copied(value);
        } else {
            let mut field = crate::text::copied(name);
            field.append("=");
            field.append(value);
            let ghost before = self.fields.deep_view();
            self.fields.push(field);
            assert(self.fields.deep_view() =~= before.push(name@ + "="@ + value@));
        }
    }

    pub fn render(self) -> (r: String)
        ensures
            r@ == rendered(self.message@, self.fields.deep_view(), self.fields@.len() as int),
    {
        let fields = self.fields;
        let mut line = self.message;
        let ghost message = line@;
        let mut i: usize = 0;
        while i < fields.len()
            invariant
                i <= fields@.len(),
                line@ == rendered(message, fields.deep_view(), i as int),
            decreases fields@.len() - i,
        {
            let ghost before = line@;
            assert(fields.deep_view()[i as int] == fields@[i as int]@);
            if !line.as_str().is_empty() {
                line.push(' ');
            }
            line.append(fields[i].as_str());
            assert(line@ =~= with_field(before, fields@[i as int]@));
            i = i + 1;
        }
        line
    }
}

/// The message comes first: whatever the fields, the line starts with it.
pub proof fn the_message_comes_first(message: Seq<char>, fields: Seq<Seq<char>>, n: int)
    requires
        0 <= n <= fields.len(),
    ensures
        message.is_prefix_of(rendered(message, fields, n)),
    decreases n,
{
    if n > 0 {
        the_message_comes_first(message, fields, n - 1);
        let before = rendered(message, fields, n - 1);
        let after = rendered(message, fields, n);
        assert(after.subrange(0, message.len() as int) =~= message) by {
            assert(before.subrange(0, message.len() as int) =~= message);
            if before.len() > 0 {
                assert forall|i: int| 0 <= i < message.len() implies after[i] == message[i] by {
                    assert(after[i] == before[i]);
                    assert(before.subrange(0, message.len() as int)[i] == before[i]);
                }
            }
        }
    } else {
        assert(message.subrange(0, message.len() as int) =~= message);
    }
}

/// A line is the message and then the fields, all of them and in their order, with a space
/// between each and the next.
pub proof fn lines_hold_every_field(message: Seq<char>, fields: Seq<Seq<char>>)
    requires
        message.len() > 0,
    ensures
        rendered(message, fields, fields.len() as int) == crate::text::joined(
            seq![message] + fields,
            " "@,
        ),
{
    lemma_rendered(message, fields, fields.len() as int);
    assert(fields.take(fields.len() as int) =~= fields);
}

proof fn lemma_rendered(message: Seq<char>, fields: Seq<Seq<char>>, n: int)
    requires
        message.len() > 0,
        0 <= n <= fields.len(),
    ensures
        rendered(message, fields, n) == crate::text::joined(seq![message] + fields.take(n), " "@),
        rendered(message, fields, n).len() > 0,
    decreases n,
{
    reveal_strlit(" ");
    if n > 0 {
        lemma_rendered(message, fields, n - 1);
        let before = seq![message] + fields.take(n - 1);
        let all = seq![message] + fields.take(n);
        assert(all.drop_last() =~= before);
        assert(all.last() == fields[n - 1]);
        assert(rendered(message, fields, n) =~= rendered(message, fields, n - 1) + " "@
            + fields[n - 1]);
    } else {
        assert(seq![message] + fields.take(0) =~= seq![message]);
    }
}

/// A line without a message is its fields.
pub proof fn lines_without_a_message_are_their_fields(fields: Seq<Seq<char>>)
    requires
        fields.len() > 0,
        fields[0].len() > 0,
    ensures
        rendered(Seq::empty(), fields, fields.len() as int) == crate::text::joined(fields, " "@),
{
    lemma_rendered_fields(fields, fields.len() as int);
    assert(fields.take(fields.len() as int) =~= fields);
}

proof fn lemma_rendered_fields(fields: Seq<Seq<char>>, n: int)
    requires
        1 <= n <= fields.len(),
        fields[0].len() > 0,
    ensures
        rendered(Seq::empty(), fields, n) == crate::text::joined(fields.take(n), " "@),
        rendered(Seq::empty(), fields, n).len() > 0,
    decreases n,
{
    reveal_strlit(" ");
    if n == 1 {
        assert(fields.take(1) =~= seq![fields[0]]);
        assert(rendered(Seq::empty(), fields, 0) =~= Seq::<char>::empty());
    } else {
        lemma_rendered_fields(fields, n - 1);
        assert(fields.take(n).drop_last() =~= fields.take(n - 1));
        assert(fields.take(n).last() == fields[n - 1]);
        assert(rendered(Seq::empty(), fields, n) =~= rendered(Seq::empty(), fields, n - 1) + " "@
            + fields[n - 1]);
    }
}

} // verus!
