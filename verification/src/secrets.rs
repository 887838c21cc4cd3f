//! Secrets: values that are taken from the host's environment.

use crate::config::Secret;
use crate::env::{lemma_last_one_counts, value_of, with_vars, EnvMap, Vars};
use crate::scan::{first_some, lemma_first_some, lemma_first_some_found, lemma_no_some};
use crate::text::{lemma_found_within, occurs};
use vstd::prelude::*;
use vstd::string::*;

verus! {

/// A secret whose environment variable is not set.
#[derive(Debug)]
pub struct MissingSecret<T> {
    pub name: T,
    pub env_var: T,
}

impl View for MissingSecret<String> {
    type V = MissingSecret<Seq<char>>;

    open spec fn view(&self) -> MissingSecret<Seq<char>> {
        MissingSecret { name: self.name@, env_var: self.env_var@ }
    }
}

/// The error for a secret that is not set.
pub open spec fn missing_secret_text(missing: MissingSecret<Seq<char>>) -> Seq<char> {
    "Secret '"@ + missing.name + "' is configured to come from env var '"@ + missing.env_var
        + "', but it is not set\nHint: export "@ + missing.env_var
        + "=<value> before running forge"@
}

impl MissingSecret<String> {
    /// The error for a secret that is not set.
    pub fn message(&self) -> (r: String)
        ensures
            r@ == missing_secret_text(self@),
    {
        "Secret '".to_string().concat(self.name.as_str()).concat(
            "' is configured to come from env var '",
        ).concat(self.env_var.as_str()).concat("', but it is not set\nHint: export ").concat(
            self.env_var.as_str(),
        ).concat("=<value> before running forge")
    }
}

/// For each secret, whether it is missing, given the value that its variable
/// has in the host's environment.
pub open spec fn missing_secrets(secrets: Seq<Secret>, values: Seq<Option<String>>) -> Seq<
    Option<MissingSecret<Seq<char>>>,
> {
    Seq::new(
        secrets.len(),
        |i: int|
            match values[i] {
                Some(_) => None,
                None => Some(
                    MissingSecret { name: secrets[i].name@, env_var: secrets[i].env_var@ },
                ),
            },
    )
}

/// The secrets with their values.
pub open spec fn secret_vars(secrets: Seq<Secret>, values: Seq<Option<String>>) -> Vars {
    Seq::new(secrets.len(), |i: int| (secrets[i].name@, values[i]->0@))
}

/// The variables that hold the secrets: of two secrets of the same name, the
/// later one counts.
pub open spec fn secrets_env(secrets: Seq<Secret>, values: Seq<Option<String>>) -> Vars {
    with_vars(Vars::empty(), secret_vars(secrets, values))
}

/// The variables that hold the secrets, given the value that the variable of
/// each has in the host's environment; or the first secret that is not set.
pub fn collect_secrets_env(secrets: &[Secret], values: &[Option<String>]) -> (r: Result<
    EnvMap,
    MissingSecret<String>,
>)
    requires
        secrets@.len() == values@.len(),
    ensures
        r is Ok <==> first_some(missing_secrets(secrets@, values@)) is None,
        r matches Ok(env) ==> env@ == secrets_env(secrets@, values@),
        r matches Err(missing) ==> Some(missing@) == first_some(
            missing_secrets(secrets@, values@),
        ),
{
    let ghost findings = missing_secrets(secrets@, values@);
    let ghost vars = secret_vars(secrets@, values@);
    let mut out = EnvMap::new();
    let mut i: usize = 0;
    assert(vars.take(0) =~= Vars::empty());
    while i < secrets.len()
        invariant
            i <= secrets@.len(),
            secrets@.len() == values@.len(),
            findings == missing_secrets(secrets@, values@),
            vars == secret_vars(secrets@, values@),
            forall|k: int| 0 <= k < i ==> findings[k] is None,
            out@ == with_vars(Vars::empty(), vars.take(i as int)),
        decreases secrets@.len() - i,
    {
        match &values[i] {
            Some(value) => {
                out.insert(secrets[i].name.clone(), value.clone());
                assert(vars.take(i + 1).drop_last() =~= vars.take(i as int));
            },
            None => {
                proof {
                    lemma_first_some(findings, i as int);
                }
                return Err(
                    MissingSecret {
                        name: secrets[i].name.clone(),
                        env_var: secrets[i].env_var.clone(),
                    },
                );
            },
        }
        i += 1;
    }
    proof {
        lemma_no_some(findings);
        assert(vars.take(i as int) =~= vars);
    }
    Ok(out)
}

/// A secret has the value of its variable in the host's environment, unless a
/// later secret has the same name.
pub proof fn law_secret_has_its_value(secrets: Seq<Secret>, values: Seq<Option<String>>, i: int)
    requires
        secrets.len() == values.len(),
        0 <= i < secrets.len(),
        values[i] is Some,
        forall|k: int| i < k < secrets.len() ==> (#[trigger] secrets[k]).name@ != secrets[i].name@,
    ensures
        value_of(secrets_env(secrets, values), secrets[i].name@) == Some(values[i]->0@),
{
    let vars = secret_vars(secrets, values);
    let name = secrets[i].name@;
    assert forall|k: int| i < k < vars.len() implies (#[trigger] vars[k]).0 != name by {
        assert(secrets[k].name@ != name);
    }
    lemma_last_one_counts(Vars::empty(), vars, name, i);
}

/// Nothing but secrets is set.
pub proof fn law_only_secrets_are_set(
    secrets: Seq<Secret>,
    values: Seq<Option<String>>,
    name: Seq<char>,
)
    requires
        secrets.len() == values.len(),
        value_of(secrets_env(secrets, values), name) is Some,
    ensures
        exists|k: int| 0 <= k < secrets.len() && (#[trigger] secrets[k]).name@ == name,
{
    let vars = secret_vars(secrets, values);
    if forall|k: int| 0 <= k < secrets.len() ==> (#[trigger] secrets[k]).name@ != name {
        assert forall|k: int| -1 < k < vars.len() implies (#[trigger] vars[k]).0 != name by {
            assert(secrets[k].name@ != name);
        }
        lemma_last_one_counts(Vars::empty(), vars, name, -1);
    }
}

/// All secrets are there if and only if each has a value; otherwise the first one
/// without a value is reported, with its name and its variable.
pub proof fn law_the_first_missing_secret(
    secrets: Seq<Secret>,
    values: Seq<Option<String>>,
    i: int,
)
    requires
        secrets.len() == values.len(),
        0 <= i < secrets.len(),
    ensures
        first_some(missing_secrets(secrets, values)) is None <==> forall|k: int|
            0 <= k < values.len() ==> (#[trigger] values[k]) is Some,
        values[i] is None && (forall|k: int| 0 <= k < i ==> (#[trigger] values[k]) is Some)
            ==> first_some(missing_secrets(secrets, values)) == Some(
            MissingSecret { name: secrets[i].name@, env_var: secrets[i].env_var@ },
        ),
{
    let row = missing_secrets(secrets, values);
    lemma_first_some_found(row);
    if forall|k: int| 0 <= k < values.len() ==> (#[trigger] values[k]) is Some {
        assert forall|k: int| 0 <= k < row.len() implies row[k] is None by {
            assert(values[k] is Some);
        }
        lemma_no_some(row);
    }
    if first_some(row) is None {
        assert forall|k: int| 0 <= k < values.len() implies (#[trigger] values[k]) is Some by {
            assert(row[k] is None);
        }
    }
    if values[i] is None && (forall|k: int| 0 <= k < i ==> (#[trigger] values[k]) is Some) {
        assert forall|k: int| 0 <= k < i implies row[k] is None by {
            assert(values[k] is Some);
        }
        lemma_first_some(row, i);
    }
}

/// Who lacks a secret is told its name and which variable to set.
#[verifier::spinoff_prover]
pub proof fn law_a_missing_secret_is_named(missing: MissingSecret<Seq<char>>)
    ensures
        occurs(missing_secret_text(missing), missing.name),
        occurs(missing_secret_text(missing), "export "@ + missing.env_var + "="@),
{
    let text = missing_secret_text(missing);
    let tail = "' is configured to come from env var '"@ + missing.env_var
        + "', but it is not set\nHint: export "@ + missing.env_var
        + "=<value> before running forge"@;
    assert(text =~= "Secret '"@ + missing.name + tail);
    lemma_found_within("Secret '"@, missing.name, tail);
    reveal_strlit("', but it is not set\nHint: export ");
    reveal_strlit("', but it is not set\nHint: ");
    reveal_strlit("export ");
    reveal_strlit("=<value> before running forge");
    reveal_strlit("=");
    reveal_strlit("<value> before running forge");
    let a = "Secret '"@ + missing.name + "' is configured to come from env var '"@
        + missing.env_var + "', but it is not set\nHint: "@;
    let b = "<value> before running forge"@;
    let part = "export "@ + missing.env_var + "="@;
    assert("', but it is not set\nHint: export "@ =~= "', but it is not set\nHint: "@ + "export "@);
    assert("=<value> before running forge"@ =~= "="@ + b);
    assert(text =~= a + part + b);
    lemma_found_within(a, part, b);
}

/// What is known of a missing secret is its name and its variable.
pub proof fn law_model_of_a_missing_secret(missing: MissingSecret<String>)
    ensures
        missing@.name == missing.name@,
        missing@.env_var == missing.env_var@,
{
}

} // verus!
