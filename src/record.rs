//! A row builder driven by a column layout: named text columns that a row requires, and
//! named numeric columns that read as not-a-number when absent or unreadable.
use vstd::prelude::*;

use crate::error::{Error, ErrorKind};
use crate::number::{number_of, parse_number, Number};
use crate::text::string_views;
use crate::tsv::{RowBuilder, RowBuilderMaker};
use crate::upload::last_value;

verus! {

/// The value of a required text column, from the last field of that name.
pub open spec fn text_at(fields: Seq<(Seq<char>, Seq<char>)>, column: Seq<char>) -> Option<
    Seq<char>,
> {
    last_value(fields, column)
}

/// The value of a numeric column: the last field of that name read as a number, or
/// not-a-number when there is none.
pub open spec fn number_at(fields: Seq<(Seq<char>, Seq<char>)>, column: Seq<char>) -> Number {
    match last_value(fields, column) {
        Some(v) => number_of(v),
        None => Number::NotANumber,
    }
}

/// The first of `required` that no field names.
pub open spec fn first_missing(required: Seq<Seq<char>>, fields: Seq<(Seq<char>, Seq<char>)>) -> Seq<
    char,
>
    decreases required.len(),
{
    if required.len() == 0 {
        Seq::<char>::empty()
    } else if text_at(fields, required[0]) is None {
        required[0]
    } else {
        first_missing(required.skip(1), fields)
    }
}

proof fn lemma_first_missing(required: Seq<Seq<char>>, fields: Seq<(Seq<char>, Seq<char>)>, j: int)
    requires
        0 <= j < required.len(),
        forall|i: int| 0 <= i < j ==> text_at(fields, #[trigger] required[i]) is Some,
        text_at(fields, required[j]) is None,
    ensures
        first_missing(required, fields) == required[j],
    decreases j,
{
    if j > 0 {
        let rest = required.skip(1);
        assert(text_at(fields, required[0]) is Some);
        assert forall|i: int| 0 <= i < j - 1 implies text_at(fields, #[trigger] rest[i]) is Some by {
            assert(rest[i] == required[i + 1]);
        }
        assert(rest[j - 1] == required[j]);
        lemma_first_missing(rest, fields, j - 1);
    }
}

/// The columns a row reads.
pub struct Layout {
    pub required: Vec<String>,
    pub numeric: Vec<String>,
}

impl Layout {
    pub open spec fn view(&self) -> (Seq<Seq<char>>, Seq<Seq<char>>) {
        (string_views(self.required@), string_views(self.numeric@))
    }
}

/// A decoded row: one text per required column and one number per numeric column, in
/// layout order.
pub struct Record {
    pub texts: Vec<String>,
    pub numbers: Vec<Number>,
}

pub struct RecordBuilder {
    pub required: Vec<String>,
    pub numeric: Vec<String>,
    pub texts: Vec<Option<String>>,
    pub numbers: Vec<Number>,
    pub fed: Ghost<Seq<(Seq<char>, Seq<char>)>>,
}

impl RowBuilderMaker for Layout {
    type Builder = RecordBuilder;

    open spec fn setting(&self) -> (Seq<Seq<char>>, Seq<Seq<char>>) {
        self.view()
    }

    fn make(&self) -> (b: RecordBuilder) {
        let mut texts: Vec<Option<String>> = Vec::new();
        let mut i: usize = 0;
        while i < self.required.len()
            invariant
                i <= self.required@.len(),
                texts@.len() == i,
                forall|j: int| 0 <= j < i ==> texts@[j] is None,
            decreases self.required@.len() - i,
        {
            texts.push(None);
            i = i + 1;
        }
        let mut numbers: Vec<Number> = Vec::new();
        let mut i: usize = 0;
        while i < self.numeric.len()
            invariant
                i <= self.numeric@.len(),
                numbers@.len() == i,
                forall|j: int| 0 <= j < i ==> numbers@[j] == Number::NotANumber,
            decreases self.numeric@.len() - i,
        {
            numbers.push(Number::NotANumber);
            i = i + 1;
        }
        let required = clone_strings(&self.required);
        let numeric = clone_strings(&self.numeric);
        assert(string_views(required@).len() == required@.len());
        assert(string_views(self.required@).len() == self.required@.len());
        assert(string_views(numeric@).len() == numeric@.len());
        assert(string_views(self.numeric@).len() == self.numeric@.len());
        RecordBuilder { required, numeric, texts, numbers, fed: Ghost(Seq::empty()) }
    }
}

fn clone_strings(v: &Vec<String>) -> (r: Vec<String>)
    ensures
        string_views(r@) == string_views(v@),
{
    let mut r: Vec<String> = Vec::new();
    let mut i: usize = 0;
    while i < v.len()
        invariant
            i <= v@.len(),
            string_views(r@) == string_views(v@).take(i as int),
        decreases v@.len() - i,
    {
        let ghost before = string_views(r@);
        r.push(v[i].clone());
        assert(string_views(r@) =~= before.push(v@[i as int]@));
        assert(string_views(v@).take(i + 1) =~= string_views(v@).take(i as int).push(v@[i as int]@));
        i = i + 1;
    }
    assert(string_views(v@).take(v@.len() as int) =~= string_views(v@));
    r
}

impl RowBuilder for RecordBuilder {
    type Row = Record;

    type Setting = (Seq<Seq<char>>, Seq<Seq<char>>);

    open spec fn setting(&self) -> (Seq<Seq<char>>, Seq<Seq<char>>) {
        (string_views(self.required@), string_views(self.numeric@))
    }

    open spec fn fed(&self) -> Seq<(Seq<char>, Seq<char>)> {
        self.fed@
    }

    open spec fn wf(&self) -> bool {
        &&& self.texts@.len() == self.required@.len()
        &&& self.numbers@.len() == self.numeric@.len()
        &&& forall|j: int|
            0 <= j < self.texts@.len() ==> match #[trigger] self.texts@[j] {
                Some(t) => text_at(self.fed@, self.required@[j]@) == Some(t@),
                None => text_at(self.fed@, self.required@[j]@) is None,
            }
        &&& forall|j: int|
            0 <= j < self.numbers@.len() ==> #[trigger] self.numbers@[j] == number_at(
                self.fed@,
                self.numeric@[j]@,
            )
    }

    open spec fn completes(
        setting: (Seq<Seq<char>>, Seq<Seq<char>>),
        fields: Seq<(Seq<char>, Seq<char>)>,
    ) -> bool {
        forall|j: int| 0 <= j < setting.0.len() ==> text_at(fields, #[trigger] setting.0[j]) is Some
    }

    open spec fn missing(
        setting: (Seq<Seq<char>>, Seq<Seq<char>>),
        fields: Seq<(Seq<char>, Seq<char>)>,
    ) -> Seq<char> {
        first_missing(setting.0, fields)
    }

    open spec fn yields(
        setting: (Seq<Seq<char>>, Seq<Seq<char>>),
        fields: Seq<(Seq<char>, Seq<char>)>,
        row: Record,
    ) -> bool {
        &&& row.texts@.len() == setting.0.len()
        &&& row.numbers@.len() == setting.1.len()
        &&& forall|j: int|
            0 <= j < setting.0.len() ==> text_at(fields, setting.0[j]) == Some(
                (#[trigger] row.texts@[j])@,
            )
        &&& forall|j: int|
            0 <= j < setting.1.len() ==> #[trigger] row.numbers@[j] == number_at(
                fields,
                setting.1[j],
            )
    }

    fn field(&mut self, name: &str, value: &str) {
        let ghost fed0 = self.fed@;
        let ghost fed1 = fed0.push((name@, value@));
        assert(fed1.drop_last() =~= fed0);
        let owned = name.to_owned();
        let ghost req0 = self.required@;
        let ghost num0 = self.numeric@;
        let ghost nums0 = self.numbers@;
        assert(fed1.last() == (name@, value@));
        let mut j: usize = 0;
        while j < self.required.len()
            invariant
                j <= self.required@.len(),
                self.required@ == req0,
                self.numeric@ == num0,
                self.numbers@ == nums0,
                self.numbers@.len() == self.numeric@.len(),
                forall|i: int|
                    0 <= i < self.numbers@.len() ==> #[trigger] self.numbers@[i] == number_at(
                        fed0,
                        self.numeric@[i]@,
                    ),
                fed1.last() == (name@, value@),
                self.texts@.len() == self.required@.len(),
                self.fed@ == fed0,
                owned@ == name@,
                fed1 == fed0.push((name@, value@)),
                fed1.drop_last() == fed0,
                forall|i: int|
                    0 <= i < self.texts@.len() ==> match #[trigger] self.texts@[i] {
                        Some(t) => text_at(if i < j { fed1 } else { fed0 }, self.required@[i]@)
                            == Some(t@),
                        None => text_at(if i < j { fed1 } else { fed0 }, self.required@[i]@) is None,
                    },
            decreases self.required@.len() - j,
        {
            if self.required[j] == owned {
                self.texts.set(j, Some(value.to_owned()));
            }
            j = j + 1;
        }
        let ghost texts1 = self.texts@;
        let mut j: usize = 0;
        while j < self.numeric.len()
            invariant
                j <= self.numeric@.len(),
                self.required@ == req0,
                self.numeric@ == num0,
                self.texts@ == texts1,
                self.texts@.len() == self.required@.len(),
                forall|i: int|
                    0 <= i < self.texts@.len() ==> match #[trigger] self.texts@[i] {
                        Some(t) => text_at(fed1, self.required@[i]@) == Some(t@),
                        None => text_at(fed1, self.required@[i]@) is None,
                    },
                fed1.last() == (name@, value@),
                self.numbers@.len() == self.numeric@.len(),
                self.fed@ == fed0,
                owned@ == name@,
                fed1 == fed0.push((name@, value@)),
                fed1.drop_last() == fed0,
                forall|i: int|
                    0 <= i < self.numbers@.len() ==> #[trigger] self.numbers@[i] == number_at(
                        if i < j {
                            fed1
                        } else {
                            fed0
                        },
                        self.numeric@[i]@,
                    ),
            decreases self.numeric@.len() - j,
        {
            if self.numeric[j] == owned {
                self.numbers.set(j, parse_number(value));
            }
            j = j + 1;
        }
        self.fed = Ghost(fed1);
    }

    fn finish(self) -> (r: Result<Record, Error>) {
        let RecordBuilder { required, numeric, texts, numbers, fed } = self;
        let mut out: Vec<String> = Vec::new();
        let mut texts = texts;
        let mut j: usize = 0;
        while j < texts.len()
            invariant
                j <= texts@.len(),
                texts@.len() == required@.len(),
                out@.len() == j,
                string_views(required@) == self.setting().0,
                fed@ == self.fed(),
                numbers@.len() == numeric@.len(),
                forall|i: int|
                    0 <= i < numbers@.len() ==> #[trigger] numbers@[i] == number_at(
                        fed@,
                        numeric@[i]@,
                    ),
                forall|i: int|
                    0 <= i < j ==> text_at(fed@, required@[i]@) == Some((#[trigger] out@[i])@),
                forall|i: int|
                    0 <= i < j ==> text_at(fed@, #[trigger] required@[i]@) is Some,
                forall|i: int|
                    j <= i < texts@.len() ==> match #[trigger] texts@[i] {
                        Some(t) => text_at(fed@, required@[i]@) == Some(t@),
                        None => text_at(fed@, required@[i]@) is None,
                    },
            decreases texts@.len() - j,
        {
            match &texts[j] {
                Some(t) => {
                    out.push(t.clone());
                },
                None => {
                    let mut message = String::from_str("Missing ");
                    message.append(required[j].as_str());
                    proof {
                        let req = string_views(required@);
                        assert(text_at(fed@, req[j as int]) is None);
                        assert forall|i: int| 0 <= i < j implies text_at(fed@, #[trigger] req[i])
                            is Some by {
                            assert(req[i] == required@[i]@);
                        }
                        lemma_first_missing(req, fed@, j as int);
                    }
                    return Err(Error::new(ErrorKind::MissingField, message));
                },
            }
            j = j + 1;
        }
        proof {
            assert forall|i: int| 0 <= i < string_views(required@).len() implies text_at(
                fed@,
                #[trigger] string_views(required@)[i],
            ) is Some by {
                assert(string_views(required@)[i] == required@[i]@);
            }
            assert forall|i: int| 0 <= i < string_views(numeric@).len() implies #[trigger] numbers@[i]
                == number_at(fed@, string_views(numeric@)[i]) by {
                assert(string_views(numeric@)[i] == numeric@[i]@);
            }
        }
        Ok(Record { texts: out, numbers })
    }
}

/// No two fields share a column name.
pub open spec fn distinct_names(fields: Seq<(Seq<char>, Seq<char>)>) -> bool {
    forall|i: int, j: int|
        0 <= i < j < fields.len() ==> (#[trigger] fields[i]).0 != (#[trigger] fields[j]).0
}

/// Under distinct names, the value found for a column is the one paired with it, wherever
/// it stands.
pub proof fn lemma_last_value_pairs(fields: Seq<(Seq<char>, Seq<char>)>, name: Seq<char>)
    requires
        distinct_names(fields),
    ensures
        last_value(fields, name) is None <==> forall|i: int|
            0 <= i < fields.len() ==> (#[trigger] fields[i]).0 != name,
        forall|v: Seq<char>|
            last_value(fields, name) == Some(v) <==> #[trigger] fields.contains((name, v)),
    decreases fields.len(),
{
    if fields.len() > 0 {
        let init = fields.drop_last();
        assert(distinct_names(init)) by {
            assert forall|i: int, j: int| 0 <= i < j < init.len() implies (#[trigger] init[i]).0
                != (#[trigger] init[j]).0 by {
                assert(init[i] == fields[i] && init[j] == fields[j]);
            }
        }
        lemma_last_value_pairs(init, name);
        let n = fields.len() - 1;
        assert forall|v: Seq<char>|
            last_value(fields, name) == Some(v) <==> #[trigger] fields.contains((name, v)) by {
            if fields.contains((name, v)) {
                let i = choose|i: int| 0 <= i < fields.len() && fields[i] == (name, v);
                if i < n {
                    assert(init[i] == fields[i]);
                    assert(init.contains((name, v)));
                    assert(fields[i].0 != fields[n].0);
                }
            }
            if init.contains((name, v)) {
                let i = choose|i: int| 0 <= i < init.len() && init[i] == (name, v);
                assert(fields[i] == init[i]);
            }
            if last_value(fields, name) == Some(v) && fields.last().0 != name {
                let i = choose|i: int| 0 <= i < init.len() && init[i] == (name, v);
                assert(fields[i] == init[i]);
            }
        }
        assert forall|i: int| 0 <= i < init.len() implies (#[trigger] init[i]) == fields[i] by {}
        if last_value(fields, name) is None {
            assert forall|i: int| 0 <= i < fields.len() implies (#[trigger] fields[i]).0 != name by {
                if i < n {
                    assert(init[i] == fields[i]);
                }
            }
        }
        if forall|i: int| 0 <= i < fields.len() ==> (#[trigger] fields[i]).0 != name {
            assert(fields[n].0 != name);
            assert forall|i: int| 0 <= i < init.len() implies (#[trigger] init[i]).0 != name by {
                assert(init[i] == fields[i]);
            }
        }
    }
}

/// A row does not depend on the order of its columns: two lines whose fields are the same
/// (column, value) pairs, each column named once, complete alike and give the same rows.
pub proof fn lemma_record_order_independent(
    layout: (Seq<Seq<char>>, Seq<Seq<char>>),
    f1: Seq<(Seq<char>, Seq<char>)>,
    f2: Seq<(Seq<char>, Seq<char>)>,
    row: Record,
)
    requires
        distinct_names(f1),
        distinct_names(f2),
        forall|p: (Seq<char>, Seq<char>)| f1.contains(p) <==> f2.contains(p),
    ensures
        RecordBuilder::completes(layout, f1) == RecordBuilder::completes(layout, f2),
        RecordBuilder::yields(layout, f1, row) == RecordBuilder::yields(layout, f2, row),
{
    assert forall|name: Seq<char>| last_value(f1, name) == last_value(f2, name) by {
        lemma_last_value_pairs(f1, name);
        lemma_last_value_pairs(f2, name);
        if last_value(f1, name) is None && last_value(f2, name) is Some {
            let v = last_value(f2, name)->Some_0;
            assert(f2.contains((name, v)));
            assert(f1.contains((name, v)));
            let i = choose|i: int| 0 <= i < f1.len() && f1[i] == (name, v);
            assert(f1[i].0 == name);
        }
        if last_value(f1, name) is Some && last_value(f2, name) is Some {
            let v = last_value(f1, name)->Some_0;
            assert(f1.contains((name, v)));
            assert(f2.contains((name, v)));
        }
        if last_value(f2, name) is None && last_value(f1, name) is Some {
            let v = last_value(f1, name)->Some_0;
            assert(f1.contains((name, v)));
            assert(f2.contains((name, v)));
            let i = choose|i: int| 0 <= i < f2.len() && f2[i] == (name, v);
            assert(f2[i].0 == name);
        }
    }
    assert forall|j: int| 0 <= j < layout.0.len() implies text_at(f1, #[trigger] layout.0[j])
        == text_at(f2, layout.0[j]) by {}
    assert forall|j: int| 0 <= j < layout.1.len() implies number_at(f1, #[trigger] layout.1[j])
        == number_at(f2, layout.1[j]) by {}
}

} // verus!
