//! Where the model's weights are.

use vstd::prelude::*;

verus! {

/// Where the weights live, relative to the checkout this was built from.
pub const MODEL_FILE: &'static str = "local/models/Qwen3.5-9B-UD-Q4_K_XL.gguf";
/// The environment variable that overrides it.
pub const MODEL_ENV: &'static str = "MPFILES_CHAT_MODEL";

/// A place to look for the weights.
#[derive(Clone, Copy, Debug, PartialEq, Eq, Structural)]
pub enum ModelPlace {
    /// The file that the environment names.
    Env,
    /// [`MODEL_FILE`] below the working directory.
    Working,
    /// [`MODEL_FILE`] below the binary's own path, this many steps up.
    Above(usize),
    /// [`MODEL_FILE`] below the checkout that the binary was compiled in.
    Checkout,
}

/// The places to look, in order. The environment, where it names one, is the only place.
pub open spec fn places(env_set: bool, above: usize, checkout: bool) -> Seq<ModelPlace> {
    if env_set {
        seq![ModelPlace::Env]
    } else {
        seq![ModelPlace::Working] + Seq::new(above as nat, |i: int| ModelPlace::Above(i as usize))
            + (if checkout {
            seq![ModelPlace::Checkout]
        } else {
            seq![]
        })
    }
}

/// Whether none of the first `n` places was the file.
pub open spec fn none_before<F: Fn(ModelPlace) -> bool>(
    is_file: F,
    all: Seq<ModelPlace>,
    n: int,
) -> bool {
    forall|i: int| 0 <= i < n ==> call_ensures(is_file, (#[trigger] all[i],), false)
}

/// Where the weights are, or `None` when this machine has none.
///
/// [`MODEL_ENV`] wins, where it is set at all; otherwise the file is looked for relative to
/// the working directory, then up from the binary through its `above` ancestors, then in the
/// checkout this binary was compiled in, where there is one. The first place that `is_file`
/// says yes to is it, and no place after it is asked about.
pub fn model_path<F: Fn(ModelPlace) -> bool>(
    env_set: bool,
    above: usize,
    checkout: bool,
    is_file: F,
) -> (r: Option<ModelPlace>)
    requires
        forall|p: ModelPlace| call_requires(is_file, (p,)),
    ensures
        ({
            let all = places(env_set, above, checkout);
            match r {
                Some(place) => exists|i: int|
                    0 <= i < all.len() && #[trigger] all[i] == place && none_before(is_file, all, i)
                        && call_ensures(is_file, (place,), true),
                None => none_before(is_file, all, all.len() as int),
            }
        }),
{
    let ghost all = places(env_set, above, checkout);
    if env_set {
        assert(all[0] == ModelPlace::Env);
        if is_file(ModelPlace::Env) {
            return Some(ModelPlace::Env);
        }
        return None;
    }
    assert(all[0] == ModelPlace::Working);
    if is_file(ModelPlace::Working) {
        return Some(ModelPlace::Working);
    }
    let mut i: usize = 0;
    while i < above
        invariant
            forall|p: ModelPlace| call_requires(is_file, (p,)),
            !env_set,
            all == places(env_set, above, checkout),
            i <= above,
            none_before(is_file, all, i + 1),
        decreases above - i,
    {
        let place = ModelPlace::Above(i);
        assert(all[i + 1] == place);
        if is_file(place) {
            return Some(place);
        }
        i += 1;
    }
    if checkout {
        assert(all[above + 1] == ModelPlace::Checkout);
        if is_file(ModelPlace::Checkout) {
            return Some(ModelPlace::Checkout);
        }
    }
    None
}

// --------------------------------------------------------------------- a law

/// Where the environment names a file, it is the only place; otherwise the working directory
/// comes first, then every step up from the binary, from itself on, and the checkout last,
/// where there is one.
pub proof fn the_places_come_in_order(above: usize, checkout: bool, i: int)
    ensures
        places(true, above, checkout) == seq![ModelPlace::Env],
        ({
            let all = places(false, above, checkout);
            &&& all.len() == above + 1 + (if checkout {
                1int
            } else {
                0
            })
            &&& all[0] == ModelPlace::Working
            &&& 0 <= i < above ==> all[i + 1] == ModelPlace::Above(i as usize)
            &&& checkout ==> all[above + 1] == ModelPlace::Checkout
            &&& !all.contains(ModelPlace::Env)
        }),
{
    let all = places(false, above, checkout);
    assert forall|j: int| 0 <= j < all.len() implies all[j] != ModelPlace::Env by {
        if 1 <= j <= above {
            assert(all[j] == ModelPlace::Above((j - 1) as usize));
        }
    }
}

} // verus!
