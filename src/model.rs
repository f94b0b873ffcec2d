use vstd::prelude::*;

verus! {

/// A dependency-providing value bound to a test argument, optionally renamed
/// from another fixture and optionally injected with explicit arguments.
#[derive(Debug, PartialEq, Eq)]
pub struct Fixture {
    pub name: String,
    pub resolve: Option<String>,
    pub args: Vec<String>,
}

/// One literal row of a case table.
#[derive(Debug, PartialEq, Eq)]
pub struct TestCase {
    pub values: Vec<String>,
    pub description: Option<String>,
    pub attrs: Vec<String>,
}

/// One axis of the combinatorial matrix.
#[derive(Debug, PartialEq, Eq)]
pub struct ValueList {
    pub name: String,
    pub values: Vec<String>,
}

/// A folder of an external data set: its own name, its files, its sub-folders.
#[derive(Debug, PartialEq, Eq)]
pub struct Folder {
    pub name: String,
    pub files: Vec<String>,
    pub folders: Vec<Folder>,
}

impl Folder {
    /// A small hierarchy to stand in for one read from disk.
    pub fn fake() -> (r: Folder)
        ensures
            r.name@ == "fake"@,
            r.files@.len() == 2,
            r.files@[0]@ == "foo"@,
            r.files@[1]@ == "bar"@,
            r.folders@.len() == 1,
            r.folders@[0].name@ == "baz"@,
            r.folders@[0].files@.len() == 0,
            r.folders@[0].folders@.len() == 0,
    {
        let baz = Folder { name: String::from_str("baz"), files: Vec::new(), folders: Vec::new() };
        let mut files: Vec<String> = Vec::new();
        files.push(String::from_str("foo"));
        files.push(String::from_str("bar"));
        let mut folders: Vec<Folder> = Vec::new();
        folders.push(baz);
        Folder { name: String::from_str("fake"), files, folders }
    }
}

/// An argument bound to one field of each record, under its own name or
/// under the given field name.
#[derive(Debug, PartialEq, Eq)]
pub struct StructField {
    pub ident: String,
    pub field: Option<String>,
}

impl StructField {
    pub fn new(ident: String, field: Option<String>) -> (r: StructField)
        ensures
            r.ident == ident,
            r.field == field,
    {
        StructField { ident, field }
    }
}

/// A data set read from files: where its records come from, the arguments
/// bound to a whole record, and those bound to one field.
#[derive(Debug, PartialEq, Eq)]
pub struct Files {
    hierarchy: Folder,
    data: Vec<String>,
    args: Vec<StructField>,
}

impl Files {
    pub closed spec fn spec_hierarchy(&self) -> Folder {
        self.hierarchy
    }

    pub closed spec fn spec_data(&self) -> Seq<String> {
        self.data@
    }

    pub closed spec fn spec_args(&self) -> Seq<StructField> {
        self.args@
    }

    /// A data set over the given hierarchy with no argument bound yet.
    pub fn from_hierarchy(hierarchy: Folder) -> (r: Files)
        ensures
            r.spec_hierarchy() == hierarchy,
            r.spec_data().len() == 0,
            r.spec_args().len() == 0,
    {
        Files { hierarchy, data: Vec::new(), args: Vec::new() }
    }

    pub fn hierarchy(&self) -> (r: &Folder)
        ensures
            *r == self.spec_hierarchy(),
    {
        &self.hierarchy
    }

    pub fn data(&self) -> (r: &[String])
        ensures
            r@ == self.spec_data(),
    {
        self.data.as_slice()
    }

    pub fn args(&self) -> (r: &[StructField])
        ensures
            r@ == self.spec_args(),
    {
        self.args.as_slice()
    }

    /// Binds one more argument to a whole record.
    pub fn push_data(&mut self, name: String)
        ensures
            final(self).spec_hierarchy() == old(self).spec_hierarchy(),
            final(self).spec_data() == old(self).spec_data().push(name),
            final(self).spec_args() == old(self).spec_args(),
    {
        self.data.push(name);
    }

    /// Binds one more argument to a record field.
    pub fn push_arg(&mut self, arg: StructField)
        ensures
            final(self).spec_hierarchy() == old(self).spec_hierarchy(),
            final(self).spec_data() == old(self).spec_data(),
            final(self).spec_args() == old(self).spec_args().push(arg),
    {
        self.args.push(arg);
    }
}

/// One item of a test specification, in declaration order.
#[derive(Debug, PartialEq, Eq)]
pub enum RsTestItem {
    Fixture(Fixture),
    CaseArgName(String),
    TestCase(TestCase),
    ValueList(ValueList),
    Files(Files),
}

impl RsTestItem {
    pub open spec fn spec_ident(&self) -> Option<Seq<char>> {
        match self {
            RsTestItem::Fixture(f) => Some(f.name@),
            RsTestItem::CaseArgName(n) => Some(n@),
            RsTestItem::ValueList(v) => Some(v.name@),
            _ => None,
        }
    }

    /// The argument name that the item binds, if it binds one.
    pub fn maybe_ident(&self) -> (r: Option<&String>)
        ensures
            r matches Some(n) ==> self.spec_ident() == Some(n@),
            r is None ==> self.spec_ident() is None,
    {
        match self {
            RsTestItem::Fixture(f) => Some(&f.name),
            RsTestItem::CaseArgName(n) => Some(n),
            RsTestItem::ValueList(v) => Some(&v.name),
            RsTestItem::TestCase(_) => None,
            RsTestItem::Files(_) => None,
        }
    }
}

/// The names of the case arguments among the items.
pub open spec fn case_args_of(items: Seq<RsTestItem>) -> Seq<Seq<char>>
    decreases items.len(),
{
    if items.len() == 0 {
        seq![]
    } else {
        let rest = case_args_of(items.drop_last());
        match items.last() {
            RsTestItem::CaseArgName(n) => rest.push(n@),
            _ => rest,
        }
    }
}

/// The case rows among the items.
pub open spec fn cases_of(items: Seq<RsTestItem>) -> Seq<TestCase>
    decreases items.len(),
{
    if items.len() == 0 {
        seq![]
    } else {
        let rest = cases_of(items.drop_last());
        match items.last() {
            RsTestItem::TestCase(c) => rest.push(c),
            _ => rest,
        }
    }
}

/// The fixtures among the items.
pub open spec fn fixtures_of(items: Seq<RsTestItem>) -> Seq<Fixture>
    decreases items.len(),
{
    if items.len() == 0 {
        seq![]
    } else {
        let rest = fixtures_of(items.drop_last());
        match items.last() {
            RsTestItem::Fixture(f) => rest.push(f),
            _ => rest,
        }
    }
}

/// The matrix axes among the items.
pub open spec fn value_lists_of(items: Seq<RsTestItem>) -> Seq<ValueList>
    decreases items.len(),
{
    if items.len() == 0 {
        seq![]
    } else {
        let rest = value_lists_of(items.drop_last());
        match items.last() {
            RsTestItem::ValueList(v) => rest.push(v),
            _ => rest,
        }
    }
}

/// The first file data set among the items.
pub open spec fn files_of(items: Seq<RsTestItem>) -> Option<Files>
    decreases items.len(),
{
    if items.len() == 0 {
        None
    } else {
        match files_of(items.drop_last()) {
            Some(f) => Some(f),
            None => match items.last() {
                RsTestItem::Files(f) => Some(f),
                _ => None,
            },
        }
    }
}

/// A test specification: its items in declaration order.
#[derive(Debug, PartialEq, Eq)]
pub struct RsTestData {
    pub items: Vec<RsTestItem>,
}

impl RsTestData {
    /// The names of the case arguments, in declaration order.
    pub fn case_args(&self) -> (r: Vec<String>)
        ensures
            r@.map_values(|s: String| s@) == case_args_of(self.items@),
    {
        let mut r: Vec<String> = Vec::new();
        let mut i: usize = 0;
        while i < self.items.len()
            invariant
                i <= self.items@.len(),
                r@.map_values(|s: String| s@) == case_args_of(self.items@.subrange(0, i as int)),
            decreases self.items@.len() - i,
        {
            assert(self.items@.subrange(0, i + 1).drop_last() == self.items@.subrange(0, i as int));
            match &self.items[i] {
                RsTestItem::CaseArgName(n) => {
                    r.push(n.clone());
                },
                _ => {},
            }
            i = i + 1;
        }
        assert(self.items@.subrange(0, i as int) == self.items@);
        r
    }

    /// The case rows, in declaration order.
    pub fn cases(&self) -> (r: Vec<&TestCase>)
        ensures
            r@.len() == cases_of(self.items@).len(),
            forall|k: int| 0 <= k < r@.len() ==> *r@[k] == cases_of(self.items@)[k],
    {
        let mut r: Vec<&TestCase> = Vec::new();
        let mut i: usize = 0;
        while i < self.items.len()
            invariant
                i <= self.items@.len(),
                r@.len() == cases_of(self.items@.subrange(0, i as int)).len(),
                forall|k: int| 0 <= k < r@.len() ==> *r@[k] == cases_of(self.items@.subrange(0, i as int))[k],
            decreases self.items@.len() - i,
        {
            assert(self.items@.subrange(0, i + 1).drop_last() == self.items@.subrange(0, i as int));
            match &self.items[i] {
                RsTestItem::TestCase(c) => {
                    r.push(c);
                },
                _ => {},
            }
            i = i + 1;
        }
        assert(self.items@.subrange(0, i as int) == self.items@);
        r
    }

    /// The fixtures, in declaration order.
    pub fn fixtures(&self) -> (r: Vec<&Fixture>)
        ensures
            r@.len() == fixtures_of(self.items@).len(),
            forall|k: int| 0 <= k < r@.len() ==> *r@[k] == fixtures_of(self.items@)[k],
    {
        let mut r: Vec<&Fixture> = Vec::new();
        let mut i: usize = 0;
        while i < self.items.len()
            invariant
                i <= self.items@.len(),
                r@.len() == fixtures_of(self.items@.subrange(0, i as int)).len(),
                forall|k: int| 0 <= k < r@.len() ==> *r@[k] == fixtures_of(self.items@.subrange(0, i as int))[k],
            decreases self.items@.len() - i,
        {
            assert(self.items@.subrange(0, i + 1).drop_last() == self.items@.subrange(0, i as int));
            match &self.items[i] {
                RsTestItem::Fixture(f) => {
                    r.push(f);
                },
                _ => {},
            }
            i = i + 1;
        }
        assert(self.items@.subrange(0, i as int) == self.items@);
        r
    }

    /// The matrix axes, in declaration order.
    pub fn list_values(&self) -> (r: Vec<&ValueList>)
        ensures
            r@.len() == value_lists_of(self.items@).len(),
            forall|k: int| 0 <= k < r@.len() ==> *r@[k] == value_lists_of(self.items@)[k],
    {
        let mut r: Vec<&ValueList> = Vec::new();
        let mut i: usize = 0;
        while i < self.items.len()
            invariant
                i <= self.items@.len(),
                r@.len() == value_lists_of(self.items@.subrange(0, i as int)).len(),
                forall|k: int| 0 <= k < r@.len() ==> *r@[k] == value_lists_of(self.items@.subrange(0, i as int))[k],
            decreases self.items@.len() - i,
        {
            assert(self.items@.subrange(0, i + 1).drop_last() == self.items@.subrange(0, i as int));
            match &self.items[i] {
                RsTestItem::ValueList(v) => {
                    r.push(v);
                },
                _ => {},
            }
            i = i + 1;
        }
        assert(self.items@.subrange(0, i as int) == self.items@);
        r
    }

    /// The first file data set, if any.
    pub fn files(&self) -> (r: Option<&Files>)
        ensures
            r matches Some(f) ==> files_of(self.items@) == Some(*f),
            r is None ==> files_of(self.items@) is None,
    {
        let mut r: Option<&Files> = None;
        let mut i: usize = 0;
        while i < self.items.len()
            invariant
                i <= self.items@.len(),
                r matches Some(f) ==> files_of(self.items@.subrange(0, i as int)) == Some(*f),
                r is None ==> files_of(self.items@.subrange(0, i as int)) is None,
            decreases self.items@.len() - i,
        {
            assert(self.items@.subrange(0, i + 1).drop_last() == self.items@.subrange(0, i as int));
            if r.is_none() {
                match &self.items[i] {
                    RsTestItem::Files(f) => {
                        r = Some(f);
                    },
                    _ => {},
                }
            }
            i = i + 1;
        }
        assert(self.items@.subrange(0, i as int) == self.items@);
        r
    }

    pub fn has_case_args(&self) -> (r: bool)
        ensures
            r == (case_args_of(self.items@).len() > 0),
    {
        self.case_args().len() > 0
    }

    pub fn has_cases(&self) -> (r: bool)
        ensures
            r == (cases_of(self.items@).len() > 0),
    {
        self.cases().len() > 0
    }

    pub fn has_fixtures(&self) -> (r: bool)
        ensures
            r == (fixtures_of(self.items@).len() > 0),
    {
        self.fixtures().len() > 0
    }

    pub fn has_list_values(&self) -> (r: bool)
        ensures
            r == (value_lists_of(self.items@).len() > 0),
    {
        self.list_values().len() > 0
    }
}

} // verus!
