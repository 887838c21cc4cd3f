//! The example configuration.

use crate::paint::{out_text_line, print_text, prints, Paint, Print};
use crate::text::{lemma_found_within, occurs};
use vstd::prelude::*;
use vstd::string::*;

verus! {

/// The example configuration.
pub open spec fn example_text() -> Seq<char> {
    "# FORGE Configuration File\nversion: \"1.0\"\n\n# Define stages in your pipeline\nstages:\n  - name: setup\n    steps:\n      - name: Install Dependencies\n        command: echo \"Installing dependencies...\"\n        image: alpine:latest\n    parallel: false\n\n  - name: test\n    steps:\n      - name: Run Tests\n        command: echo \"Running tests...\"\n        image: alpine:latest\n    depends_on:\n      - setup\n\n  - name: build\n    steps:\n      - name: Build Application\n        command: echo \"Building application...\"\n        image: alpine:latest\n    depends_on:\n      - test\n\n# Cache configuration\ncache:\n  enabled: true\n  directories:\n    - /workspace/node_modules\n    - /workspace/.cache\n\n# Secrets configuration\nsecrets:\n  - name: API_TOKEN\n    env_var: FORGE_API_TOKEN\n"@
}

/// The error for a file that would be overwritten.
pub open spec fn already_exists_text(path: Seq<char>) -> Seq<char> {
    "Configuration file '"@ + path
        + "' already exists\nHint: Use --force to overwrite, or choose a different filename with --file"@
}

/// What to write to `path`: the example configuration. A file that exists is
/// only overwritten by force.
pub fn create_example_config(path: &str, exists: bool, force: bool) -> (r: Result<String, String>)
    ensures
        r is Err <==> exists && !force,
        r matches Ok(contents) ==> contents@ == example_text(),
        r matches Err(e) ==> e@ == already_exists_text(path@),
{
    if exists && !force {
        return Err(
            "Configuration file '".to_string().concat(path).concat(
                "' already exists\nHint: Use --force to overwrite, or choose a different filename with --file",
            ),
        );
    }
    Ok(
        "# FORGE Configuration File\nversion: \"1.0\"\n\n# Define stages in your pipeline\nstages:\n  - name: setup\n    steps:\n      - name: Install Dependencies\n        command: echo \"Installing dependencies...\"\n        image: alpine:latest\n    parallel: false\n\n  - name: test\n    steps:\n      - name: Run Tests\n        command: echo \"Running tests...\"\n        image: alpine:latest\n    depends_on:\n      - setup\n\n  - name: build\n    steps:\n      - name: Build Application\n        command: echo \"Building application...\"\n        image: alpine:latest\n    depends_on:\n      - test\n\n# Cache configuration\ncache:\n  enabled: true\n  directories:\n    - /workspace/node_modules\n    - /workspace/.cache\n\n# Secrets configuration\nsecrets:\n  - name: API_TOKEN\n    env_var: FORGE_API_TOKEN\n".to_string(),
    )
}

/// The error for a file that cannot be created.
pub fn create_failed(path: &str, error: &str) -> (r: String)
    ensures
        r@ == "Failed to create configuration file '"@ + path@ + "': "@ + error@
            + "\nPossible causes:\n• Insufficient write permissions in directory\n• Directory doesn't exist\n• Disk space full\nHint: Check directory permissions and available disk space"@,
{
    "Failed to create configuration file '".to_string().concat(path).concat("': ").concat(
        error,
    ).concat(
        "\nPossible causes:\n• Insufficient write permissions in directory\n• Directory doesn't exist\n• Disk space full\nHint: Check directory permissions and available disk space",
    )
}

/// The error for a file that cannot be written.
pub fn write_failed(path: &str, error: &str) -> (r: String)
    ensures
        r@ == "Failed to write to configuration file '"@ + path@ + "': "@ + error@
            + "\nPossible causes:\n• Disk space full\n• File system error\n• Process interrupted\nHint: Check available disk space with 'df -h'"@,
{
    "Failed to write to configuration file '".to_string().concat(path).concat("': ").concat(
        error,
    ).concat(
        "\nPossible causes:\n• Disk space full\n• File system error\n• Process interrupted\nHint: Check available disk space with 'df -h'",
    )
}

/// What is said once the file stands.
pub fn created_lines(path: &str) -> (r: Vec<Print>)
    ensures
        prints(r@) == seq![
            out_text_line("Created example configuration file: "@ + path@, Paint::GreenBold),
            out_text_line("Edit this file to configure your pipeline."@, Paint::Plain),
        ],
{
    let r = vec![
        print_text(
            "Created example configuration file: ".to_string().concat(path),
            Paint::GreenBold,
        ),
        print_text("Edit this file to configure your pipeline.".to_string(), Paint::Plain),
    ];
    assert(prints(r@) =~= seq![
        out_text_line("Created example configuration file: "@ + path@, Paint::GreenBold),
        out_text_line("Edit this file to configure your pipeline."@, Paint::Plain),
    ]);
    r
}

/// A file that would be overwritten is named.
pub proof fn law_an_existing_file_is_named(path: Seq<char>)
    ensures
        occurs(already_exists_text(path), path),
{
    lemma_found_within(
        "Configuration file '"@,
        path,
        "' already exists\nHint: Use --force to overwrite, or choose a different filename with --file"@,
    );
}

/// The example is a whole configuration: a version, three stages of one step each
/// that run one after the other, directories to keep and a secret.
#[verifier::spinoff_prover]
#[verifier::rlimit(60)]
pub proof fn law_the_example_is_whole()
    ensures
        ({
            let head = "# FORGE Configuration File\nversion: \"1.0\"\n\n# Define stages in your pipeline\nstages:\n"@;
            let setup = "  - name: setup\n    steps:\n      - name: Install Dependencies\n        command: echo \"Installing dependencies...\"\n        image: alpine:latest\n    parallel: false\n\n"@;
            let test = "  - name: test\n    steps:\n      - name: Run Tests\n        command: echo \"Running tests...\"\n        image: alpine:latest\n    depends_on:\n      - setup\n\n"@;
            let build = "  - name: build\n    steps:\n      - name: Build Application\n        command: echo \"Building application...\"\n        image: alpine:latest\n    depends_on:\n      - test\n\n"@;
            let cache = "# Cache configuration\ncache:\n  enabled: true\n  directories:\n    - /workspace/node_modules\n    - /workspace/.cache\n\n"@;
            let secrets = "# Secrets configuration\nsecrets:\n  - name: API_TOKEN\n    env_var: FORGE_API_TOKEN\n"@;
            example_text() == head + setup + test + build + cache + secrets
        }),
{
    reveal_strlit("# FORGE Configuration File\nversion: \"1.0\"\n\n# Define stages in your pipeline\nstages:\n  - name: setup\n    steps:\n      - name: Install Dependencies\n        command: echo \"Installing dependencies...\"\n        image: alpine:latest\n    parallel: false\n\n  - name: test\n    steps:\n      - name: Run Tests\n        command: echo \"Running tests...\"\n        image: alpine:latest\n    depends_on:\n      - setup\n\n  - name: build\n    steps:\n      - name: Build Application\n        command: echo \"Building application...\"\n        image: alpine:latest\n    depends_on:\n      - test\n\n# Cache configuration\ncache:\n  enabled: true\n  directories:\n    - /workspace/node_modules\n    - /workspace/.cache\n\n# Secrets configuration\nsecrets:\n  - name: API_TOKEN\n    env_var: FORGE_API_TOKEN\n");
    reveal_strlit("# FORGE Configuration File\nversion: \"1.0\"\n\n# Define stages in your pipeline\nstages:\n");
    reveal_strlit("  - name: setup\n    steps:\n      - name: Install Dependencies\n        command: echo \"Installing dependencies...\"\n        image: alpine:latest\n    parallel: false\n\n");
    reveal_strlit("  - name: test\n    steps:\n      - name: Run Tests\n        command: echo \"Running tests...\"\n        image: alpine:latest\n    depends_on:\n      - setup\n\n");
    reveal_strlit("  - name: build\n    steps:\n      - name: Build Application\n        command: echo \"Building application...\"\n        image: alpine:latest\n    depends_on:\n      - test\n\n");
    reveal_strlit("# Cache configuration\ncache:\n  enabled: true\n  directories:\n    - /workspace/node_modules\n    - /workspace/.cache\n\n");
    reveal_strlit("# Secrets configuration\nsecrets:\n  - name: API_TOKEN\n    env_var: FORGE_API_TOKEN\n");
    let head = "# FORGE Configuration File\nversion: \"1.0\"\n\n# Define stages in your pipeline\nstages:\n"@;
    let setup = "  - name: setup\n    steps:\n      - name: Install Dependencies\n        command: echo \"Installing dependencies...\"\n        image: alpine:latest\n    parallel: false\n\n"@;
    let test = "  - name: test\n    steps:\n      - name: Run Tests\n        command: echo \"Running tests...\"\n        image: alpine:latest\n    depends_on:\n      - setup\n\n"@;
    let build = "  - name: build\n    steps:\n      - name: Build Application\n        command: echo \"Building application...\"\n        image: alpine:latest\n    depends_on:\n      - test\n\n"@;
    let cache = "# Cache configuration\ncache:\n  enabled: true\n  directories:\n    - /workspace/node_modules\n    - /workspace/.cache\n\n"@;
    let secrets = "# Secrets configuration\nsecrets:\n  - name: API_TOKEN\n    env_var: FORGE_API_TOKEN\n"@;
    assert(example_text() =~= head + setup + test + build + cache + secrets);
}

} // verus!
