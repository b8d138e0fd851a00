use vstd::prelude::*;

pub use crate::parser::parse;

verus! {

/// A filter over attribute names.
#[derive(Debug, PartialEq)]
pub enum Expr {
    Or(Box<Expr>, Box<Expr>),
    And(Box<Expr>, Box<Expr>),
    Not(Box<Expr>),
    Value(String),
}

/// The mathematical form of a filter.
pub enum ExprModel {
    Or(Box<ExprModel>, Box<ExprModel>),
    And(Box<ExprModel>, Box<ExprModel>),
    Not(Box<ExprModel>),
    Value(Seq<char>),
}

/// The mathematical form of `e`.
pub open spec fn model(e: &Expr) -> ExprModel
    decreases e,
{
    match e {
        Expr::Or(a, b) => ExprModel::Or(Box::new(model(a)), Box::new(model(b))),
        Expr::And(a, b) => ExprModel::And(Box::new(model(a)), Box::new(model(b))),
        Expr::Not(a) => ExprModel::Not(Box::new(model(a))),
        Expr::Value(v) => ExprModel::Value(v@),
    }
}

/// Whether the filter holds of a set of names: a value holds when it is one
/// of the names.
pub open spec fn eval(e: ExprModel, names: Seq<Seq<char>>) -> bool
    decreases e,
{
    match e {
        ExprModel::Or(a, b) => eval(*a, names) || eval(*b, names),
        ExprModel::And(a, b) => eval(*a, names) && eval(*b, names),
        ExprModel::Not(a) => !eval(*a, names),
        ExprModel::Value(v) => names.contains(v),
    }
}

/// The texts of a slice of names.
pub open spec fn strs_view(v: Seq<&str>) -> Seq<Seq<char>> {
    v.map_values(|s: &str| s@)
}

impl Expr {
    pub fn calc(&self, values: &[&str]) -> (r: bool)
        ensures
            r == eval(model(self), strs_view(values@)),
        decreases self,
    {
        match self {
            Expr::Or(a, b) => a.calc(values) || b.calc(values),
            Expr::And(a, b) => a.calc(values) && b.calc(values),
            Expr::Not(e) => !e.calc(values),
            Expr::Value(v) => {
                let mut i: usize = 0;
                assert(model(self) == ExprModel::Value(v@));
                while i < values.len()
                    invariant
                        model(self) == ExprModel::Value(v@),
                        i <= values.len(),
                        forall|j: int| 0 <= j < i ==> values@[j]@ != v@,
                    decreases values.len() - i,
                {
                    if values[i].to_owned() == *v {
                        assert(strs_view(values@)[i as int] == v@);
                        assert(strs_view(values@).contains(v@));
                        return true;
                    }
                    i += 1;
                }
                proof {
                    assert forall|j: int| 0 <= j < strs_view(values@).len() implies strs_view(values@)[j] != v@ by {
                        assert(values@[j]@ != v@);
                    }
                }
                false
            },
        }
    }
}

/// The operator tokens of the filter syntax.
#[derive(Default)]
pub struct Ops {
    pub lp: String,
    pub rp: String,
    pub or: String,
    pub and: String,
    pub not: String,
}

/// The operator tokens as texts.
pub struct OpsModel {
    pub lp: Seq<char>,
    pub rp: Seq<char>,
    pub or: Seq<char>,
    pub and: Seq<char>,
    pub not: Seq<char>,
}

impl Ops {
    pub open spec fn model(&self) -> OpsModel {
        OpsModel { lp: self.lp@, rp: self.rp@, or: self.or@, and: self.and@, not: self.not@ }
    }
}

/// Access to the operator tokens of a filter syntax.
pub trait ExprOps {
    fn lp(&self) -> &str;

    fn rp(&self) -> &str;

    fn or(&self) -> &str;

    fn and(&self) -> &str;

    fn not(&self) -> &str;
}

impl ExprOps for Ops {
    fn lp(&self) -> (r: &str)
        ensures
            r@ == self.lp@,
    {
        self.lp.as_str()
    }

    fn rp(&self) -> (r: &str)
        ensures
            r@ == self.rp@,
    {
        self.rp.as_str()
    }

    fn or(&self) -> (r: &str)
        ensures
            r@ == self.or@,
    {
        self.or.as_str()
    }

    fn and(&self) -> (r: &str)
        ensures
            r@ == self.and@,
    {
        self.and.as_str()
    }

    fn not(&self) -> (r: &str)
        ensures
            r@ == self.not@,
    {
        self.not.as_str()
    }
}

} // verus!
