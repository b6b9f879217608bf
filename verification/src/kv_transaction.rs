//! The application-defined transaction shape for the key-value engine: a
//! tagged value that inserts, reads or removes one key.

use rand::distributions::DistString;
use vstd::prelude::*;

verus! {

/// One application transaction. `Insert` carries a key and a value; `Get`
/// and `Remove` carry only a key.
#[derive(Debug, Clone)]
pub enum KVTransaction<K, V> {
    Insert(K, V),
    Get(K),
    Remove(K),
}

/// Mathematical image of a string-keyed transaction.
#[verifier::ext_equal]
pub ghost enum TxView {
    Insert { key: Seq<char>, value: Seq<char> },
    Get { key: Seq<char> },
    Remove { key: Seq<char> },
}

impl View for KVTransaction<String, String> {
    type V = TxView;

    open spec fn view(&self) -> TxView {
        match self {
            KVTransaction::Insert(k, v) => TxView::Insert { key: k@, value: v@ },
            KVTransaction::Get(k) => TxView::Get { key: k@ },
            KVTransaction::Remove(k) => TxView::Remove { key: k@ },
        }
    }
}

/// Relies on rand's `Alphanumeric::sample_string`: it returns a string of
/// exactly `len` characters, each drawn from the ASCII alphanumeric range
/// (a-z, A-Z, 0-9). Nothing is assumed about which characters come out.
#[verifier::external_body]
pub fn random_string(len: usize) -> (r: String)
    ensures
        r@.len() == len,
        vstd::utf8::is_ascii_chars(r@),
{
    let mut rng = rand::thread_rng();
    rand::distributions::Alphanumeric.sample_string(&mut rng, len)
}

} // verus!
