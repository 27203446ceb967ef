use vstd::prelude::*;

use super::scheduler::AppStateInfo;

verus! {

/// Shared access to the data of the current state.
pub struct State<'a, V> {
    pub value: &'a V,
}

impl<'a, V> State<'a, V> {
    /// The data of the current state if the application is in the state
    /// `key`; `None` otherwise.
    pub fn retrieve<'b>(state: &'a Option<AppStateInfo<'b, V>>, key: u64) -> (r: Option<State<'a, V>>)
        ensures
            r is Some <==> (*state matches Some(s) && s.current_state == key),
            r matches Some(st) ==> *st.value == *state.unwrap().current_data,
    {
        match state {
            Some(s) => {
                if s.current_state == key {
                    Some(State { value: &*s.current_data })
                } else {
                    None
                }
            },
            None => None,
        }
    }
}

/// Exclusive access to the data of the current state.
pub struct StateMut<'a, V> {
    pub value: &'a mut V,
}

impl<'a, V> StateMut<'a, V> {
    /// The data of the current state, for changing in place, if the
    /// application is in the state `key`; `None` otherwise. Changes made
    /// through the result are changes of the data.
    pub fn retrieve(state: Option<AppStateInfo<'a, V>>, key: u64) -> (r: Option<StateMut<'a, V>>)
        ensures
            r is Some <==> (state matches Some(s) && s.current_state == key),
            r matches Some(st) ==> *st.value == *state.unwrap().current_data && *final(st.value)
                == *final(state.unwrap().current_data),
    {
        match state {
            Some(s) => {
                if s.current_state == key {
                    Some(StateMut { value: s.current_data })
                } else {
                    None
                }
            },
            None => None,
        }
    }
}

} // verus!
