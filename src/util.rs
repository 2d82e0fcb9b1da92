use vstd::prelude::*;
use vstd::string::*;

verus! {

/// Whether `id` is among the queued identifiers.
pub fn queue_contains(q: &std::collections::VecDeque<usize>, id: usize) -> (r: bool)
    ensures
        r == q@.contains(id),
{
    let mut i: usize = 0;
    while i < q.len()
        invariant
            i <= q@.len(),
            forall|k: int| 0 <= k < i ==> q@[k] != id,
        decreases q@.len() - i,
    {
        if q[i] == id {
            return true;
        }
        i = i + 1;
    }
    false
}

/// Plain value of an identifier generator.
pub ghost struct IdGenView {
    /// The next fresh identifier.
    pub current: usize,
    /// Identifiers handed back, in the order in which they will be reused.
    pub available: Seq<usize>,
}

/// Hands out identifiers: the ones handed back first, oldest first, then fresh ones counting up
/// from zero.
#[derive(Debug, Clone)]
pub struct IDGen {
    current_id: usize,
    available_ids: std::collections::VecDeque<usize>,
}

impl View for IDGen {
    type V = IdGenView;

    closed spec fn view(&self) -> IdGenView {
        IdGenView { current: self.current_id, available: self.available_ids@ }
    }
}

impl IDGen {
    pub fn new() -> (r: Self)
        ensures
            r@ == (IdGenView { current: 0, available: Seq::empty() }),
    {
        IDGen { current_id: 0, available_ids: std::collections::VecDeque::new() }
    }

    /// Fails once the fresh identifiers are used up, even when some were handed back.
    pub fn get_id(&mut self) -> (r: Result<usize, String>)
        ensures
            old(self)@.current == usize::MAX ==> r is Err && final(self)@ == old(self)@,
            old(self)@.current < usize::MAX && old(self)@.available.len() > 0 ==> r == Ok::<
                usize,
                String,
            >(old(self)@.available[0]) && final(self)@ == (IdGenView {
                current: old(self)@.current,
                available: old(self)@.available.drop_first(),
            }),
            old(self)@.current < usize::MAX && old(self)@.available.len() == 0 ==> r == Ok::<
                usize,
                String,
            >(old(self)@.current) && final(self)@ == (IdGenView {
                current: (old(self)@.current + 1) as usize,
                available: old(self)@.available,
            }),
    {
        if self.current_id == usize::MAX {
            return Err(String::from_str("Max ID count reached!"));
        }
        match self.available_ids.pop_front() {
            Some(val) => {
                assert(self.available_ids@ =~= old(self)@.available.drop_first());
                Ok(val)
            },
            None => {
                let id = self.current_id;
                self.current_id = self.current_id + 1;
                Ok(id)
            },
        }
    }

    /// Takes back an identifier that was handed out, unless it is already back.
    pub fn return_id(&mut self, id: usize)
        ensures
            final(self)@ == (if id < old(self)@.current && !old(self)@.available.contains(id) {
                IdGenView { current: old(self)@.current, available: old(self)@.available.push(id) }
            } else {
                old(self)@
            }),
    {
        if id < self.current_id && !queue_contains(&self.available_ids, id) {
            self.available_ids.push_back(id);
        }
    }

    pub fn reset(&mut self)
        ensures
            final(self)@ == (IdGenView { current: 0, available: Seq::empty() }),
    {
        self.current_id = 0;
        self.available_ids.clear();
    }
}

} // verus!
