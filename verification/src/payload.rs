//! Validated transaction payloads.
//!
//! A payload is checked once, field by field, and turned into values that
//! cannot be malformed; everything downstream consumes them without checking
//! again.

use vstd::prelude::*;
use vstd::std_specs::convert::TryFromSpecImpl;
use vstd::string::StrSliceExecFns;
use crate::error::ShapeFault;

verus! {

/// The direction of a transaction.
#[derive(Clone, Copy, Debug, PartialEq, Eq, Structural)]
pub enum Kind {
    /// Decreases the balance.
    Debit,
    /// Increases the balance.
    Credit,
}

/// The longest description accepted, in characters.
pub const MAX_DESCRIPTION_CHARS: usize = 10;

/// The kind that a payload's type text stands for, if any: `"d"` is a debit,
/// `"c"` a credit.
pub open spec fn kind_of(tipo: Seq<char>) -> Option<Kind> {
    if tipo == seq!['d'] {
        Some(Kind::Debit)
    } else if tipo == seq!['c'] {
        Some(Kind::Credit)
    } else {
        None
    }
}

/// Whether a text is acceptable as a description: one to ten characters.
pub open spec fn description_ok(descricao: Seq<char>) -> bool {
    1 <= descricao.len() <= MAX_DESCRIPTION_CHARS
}

/// A validated transaction kind.
#[derive(Clone, Copy, Debug, PartialEq, Eq, Structural)]
pub struct TransactionType(pub Kind);

impl TransactionType {
    /// The kind held.
    pub fn kind(&self) -> (kind: Kind)
        ensures
            kind == self.0,
    {
        self.0
    }

    /// The one-letter text that stands for the kind in payloads and rows.
    pub fn code(&self) -> (text: &'static str)
        ensures
            kind_of(text@) == Some(self.0),
    {
        match self.0 {
            Kind::Debit => {
                proof {
                    reveal_strlit("d");
                    assert("d"@ =~= seq!['d']);
                }
                "d"
            },
            Kind::Credit => {
                proof {
                    reveal_strlit("c");
                    assert("c"@ =~= seq!['c']);
                    assert(seq!['c'][0] != seq!['d'][0]);
                }
                "c"
            },
        }
    }
}

impl TryFrom<String> for TransactionType {
    type Error = ShapeFault;

    /// Accepts exactly the texts `"d"` and `"c"`.
    fn try_from(tipo: String) -> (r: Result<Self, ShapeFault>)
        ensures
            r == match kind_of(tipo@) {
                Some(kind) => Ok(TransactionType(kind)),
                None => Err(ShapeFault::Kind),
            },
    {
        let text = tipo.as_str();
        if text.unicode_len() != 1 {
            proof {
                assert(seq!['d'].len() == 1 && seq!['c'].len() == 1);
            }
            return Err(ShapeFault::Kind);
        }
        let letter = text.get_char(0);
        if letter == 'd' {
            assert(tipo@ =~= seq!['d']);
            Ok(TransactionType(Kind::Debit))
        } else if letter == 'c' {
            assert(tipo@ =~= seq!['c']);
            assert(seq!['c'][0] != seq!['d'][0]);
            Ok(TransactionType(Kind::Credit))
        } else {
            assert(seq!['d'][0] == 'd' && seq!['c'][0] == 'c');
            Err(ShapeFault::Kind)
        }
    }
}

impl TryFromSpecImpl<String> for TransactionType {
    open spec fn obeys_try_from_spec() -> bool {
        true
    }

    open spec fn try_from_spec(tipo: String) -> Result<Self, ShapeFault> {
        match kind_of(tipo@) {
            Some(kind) => Ok(TransactionType(kind)),
            None => Err(ShapeFault::Kind),
        }
    }
}

/// A validated description: one to ten characters.
#[derive(Debug, PartialEq, Eq)]
pub struct TransactionDescription(String);

impl Clone for TransactionDescription {
    fn clone(&self) -> (copy: Self)
        ensures
            copy == *self,
    {
        proof {
            use_type_invariant(self);
        }
        TransactionDescription(self.0.clone())
    }
}

impl View for TransactionDescription {
    type V = Seq<char>;

    closed spec fn view(&self) -> Seq<char> {
        self.0@
    }
}

impl TransactionDescription {
    #[verifier::type_invariant]
    spec fn within_bounds(self) -> bool {
        description_ok(self.0@)
    }

    /// The text held, which has one to ten characters.
    pub fn text(&self) -> (text: &str)
        ensures
            text@ == self@,
            description_ok(self@),
    {
        proof {
            use_type_invariant(self);
        }
        self.0.as_str()
    }

    /// Gives up the text held.
    pub fn into_text(self) -> (text: String)
        ensures
            text@ == self@,
            description_ok(self@),
    {
        proof {
            use_type_invariant(&self);
        }
        self.0
    }
}

impl TryFrom<String> for TransactionDescription {
    type Error = ShapeFault;

    /// Accepts a text of one to ten characters and keeps it unchanged.
    fn try_from(descricao: String) -> (r: Result<Self, ShapeFault>)
        ensures
            description_ok(descricao@) ==> r is Ok && r->Ok_0@ == descricao@,
            !description_ok(descricao@) ==> r == Err::<Self, ShapeFault>(ShapeFault::Description),
    {
        let chars = descricao.as_str().unicode_len();
        if 1 <= chars && chars <= MAX_DESCRIPTION_CHARS {
            Ok(TransactionDescription(descricao))
        } else {
            Err(ShapeFault::Description)
        }
    }
}

impl TryFromSpecImpl<String> for TransactionDescription {
    open spec fn obeys_try_from_spec() -> bool {
        true
    }

    closed spec fn try_from_spec(descricao: String) -> Result<Self, ShapeFault> {
        if description_ok(descricao@) {
            Ok(TransactionDescription(descricao))
        } else {
            Err(ShapeFault::Description)
        }
    }
}

/// A validated amount, held in minor units and always positive.
#[derive(Clone, Copy, Debug, PartialEq, Eq)]
pub struct TransactionValue(i64);

impl View for TransactionValue {
    type V = int;

    closed spec fn view(&self) -> int {
        self.0 as int
    }
}

impl TransactionValue {
    #[verifier::type_invariant]
    spec fn positive(self) -> bool {
        self.0 > 0
    }

    /// The amount in minor units.
    pub fn minor_units(&self) -> (amount: i64)
        ensures
            amount == self@,
            amount > 0,
    {
        proof {
            use_type_invariant(self);
        }
        self.0
    }

}

impl TryFrom<i64> for TransactionValue {
    type Error = ShapeFault;

    /// Accepts every positive amount and holds it unchanged; the amount is
    /// in minor units as it arrives.
    fn try_from(valor: i64) -> (r: Result<Self, ShapeFault>)
        ensures
            valor > 0 ==> r is Ok && r->Ok_0@ == valor,
            valor <= 0 ==> r == Err::<Self, ShapeFault>(ShapeFault::Amount),
    {
        if valor > 0 {
            Ok(TransactionValue(valor))
        } else {
            Err(ShapeFault::Amount)
        }
    }
}

impl TryFromSpecImpl<i64> for TransactionValue {
    open spec fn obeys_try_from_spec() -> bool {
        true
    }

    closed spec fn try_from_spec(valor: i64) -> Result<Self, ShapeFault> {
        if valor > 0 {
            Ok(TransactionValue(valor))
        } else {
            Err(ShapeFault::Amount)
        }
    }
}

/// A transaction as submitted, every field already validated.
#[derive(Debug, PartialEq, Eq)]
pub struct Transaction {
    /// The amount, in minor units.
    pub valor: TransactionValue,
    /// Debit or credit.
    pub tipo: TransactionType,
    /// The description.
    pub descricao: TransactionDescription,
}

impl Clone for Transaction {
    fn clone(&self) -> (copy: Self)
        ensures
            copy == *self,
    {
        Transaction { valor: self.valor, tipo: self.tipo, descricao: self.descricao.clone() }
    }
}

/// The first field, in the order amount, kind, description, that makes a
/// payload malformed; `None` for a payload that is well formed.
pub open spec fn shape_fault(valor: int, tipo: Seq<char>, descricao: Seq<char>) -> Option<ShapeFault> {
    if valor <= 0 {
        Some(ShapeFault::Amount)
    } else if kind_of(tipo) is None {
        Some(ShapeFault::Kind)
    } else if !description_ok(descricao) {
        Some(ShapeFault::Description)
    } else {
        None
    }
}

impl Transaction {
    /// Validates a raw payload. It is accepted exactly when no field is
    /// malformed, and then holds the amount unchanged, the kind the type
    /// text stands for, and the description unchanged; otherwise the first
    /// malformed field is reported.
    pub fn parse(valor: i64, tipo: String, descricao: String) -> (r: Result<Transaction, ShapeFault>)
        ensures
            match shape_fault(valor as int, tipo@, descricao@) {
                Some(fault) => r == Err::<Transaction, ShapeFault>(fault),
                None => r matches Ok(tx) && tx.valor@ == valor
                    && Some(tx.tipo.0) == kind_of(tipo@) && tx.descricao@ == descricao@,
            },
    {
        let valor = match TransactionValue::try_from(valor) {
            Ok(valor) => valor,
            Err(fault) => { return Err(fault); },
        };
        let tipo = match TransactionType::try_from(tipo) {
            Ok(tipo) => tipo,
            Err(fault) => { return Err(fault); },
        };
        let descricao = match TransactionDescription::try_from(descricao) {
            Ok(descricao) => descricao,
            Err(fault) => { return Err(fault); },
        };
        Ok(Transaction { valor, tipo, descricao })
    }
}

} // verus!
