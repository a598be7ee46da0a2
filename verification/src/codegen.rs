//! Source and configuration scaffolding: text generators for new services
//! and front-end components, each output specified character by character.

use vstd::prelude::*;

verus! {

use crate::errors::AlphaResult;
use vstd::string::StringExecFns;
use vstd::string::StrSliceExecFns;
use crate::utils::string::push_char;

/// The lowercase form of a sequence of characters.
pub uninterp spec fn lower_of(s: Seq<char>) -> Seq<char>;

/// Relies on str::to_lowercase: the result depends on the characters alone.
#[verifier::external_body]
fn to_lowercase(s: &str) -> (r: String)
    ensures
        r@ == lower_of(s@),
{
    s.to_lowercase()
}

/// Each dash replaced by an underscore, everything else untouched.
pub open spec fn dashes_to_underscores(s: Seq<char>) -> Seq<char> {
    Seq::new(
        s.len(),
        |i: int|
            if s[i] == '-' {
                '_'
            } else {
                s[i]
            },
    )
}

fn dash_to_underscore(s: &str) -> (r: String)
    ensures
        r@ == dashes_to_underscores(s@),
{
    let n: usize = s.unicode_len();
    let mut out = String::new();
    let mut i: usize = 0;
    while i < n
        invariant
            0 <= i <= n,
            n == s@.len(),
            out@.len() == i,
            forall|j: int|
                0 <= j < i ==> #[trigger] out@[j] == dashes_to_underscores(s@)[j],
        decreases n - i,
    {
        let c = s.get_char(i);
        if c == '-' {
            push_char(&mut out, '_');
        } else {
            push_char(&mut out, c);
        }
        i = i + 1;
    }
    proof {
        assert(out@ =~= dashes_to_underscores(s@));
    }
    out
}

/// The manifest of a newly scaffolded service crate: the package is named
/// `alpha-` followed by the lowercased service name.
pub fn generate_service_cargo_toml(name: &str, service_type: &str) -> (r: AlphaResult<String>)
    ensures
        r matches Ok(t) && t@ == "[package]\nname = \"alpha-"@ + lower_of(name@)
            + "\"\nversion.workspace = true\nedition.workspace = true\n\n[dependencies]\ntokio = { workspace = true }\naxum = { workspace = true }\nserde = { workspace = true }\nserde_json = { workspace = true }\ntracing = { workspace = true }\nanyhow = { workspace = true }\nalpha-core = { workspace = true }\n"@,
{
    let low = to_lowercase(name);
    let mut out = String::from_str("[package]\nname = \"alpha-");
    out.append(low.as_str());
    out.append(
        "\"\nversion.workspace = true\nedition.workspace = true\n\n[dependencies]\ntokio = { workspace = true }\naxum = { workspace = true }\nserde = { workspace = true }\nserde_json = { workspace = true }\ntracing = { workspace = true }\nanyhow = { workspace = true }\nalpha-core = { workspace = true }\n",
    );
    Ok(out)
}

/// The entry point of a newly scaffolded service: an HTTP skeleton for the
/// `http` service type, a bare logging skeleton otherwise.
pub fn generate_service_main_rs(name: &str, service_type: &str) -> (r: AlphaResult<String>)
    ensures
        service_type@ == "http"@ ==> (r matches Ok(t) && t@ == "//! "@ + name@
            + " HTTP service\n\nasync fn health() -> &'static str {\n    \"ok\"\n}\n\n#[tokio::main]\nasync fn main() {\n    let app = axum::Router::new().route(\"/health\", axum::routing::get(health));\n    let listener = tokio::net::TcpListener::bind(\"127.0.0.1:8080\").await.unwrap();\n    axum::serve(listener, app).await.unwrap();\n}\n"@),
        service_type@ != "http"@ ==> (r matches Ok(t) && t@ == "//! "@ + name@
            + " service\n\n#[tokio::main]\nasync fn main() {\n    tracing_subscriber::fmt::init();\n    tracing::info!(\"starting "@ + name@ + "\");\n}\n"@),
{
    let st = String::from_str(service_type);
    let http = String::from_str("http");
    let mut out = String::from_str("//! ");
    out.append(name);
    if st == http {
        out.append(
            " HTTP service\n\nasync fn health() -> &'static str {\n    \"ok\"\n}\n\n#[tokio::main]\nasync fn main() {\n    let app = axum::Router::new().route(\"/health\", axum::routing::get(health));\n    let listener = tokio::net::TcpListener::bind(\"127.0.0.1:8080\").await.unwrap();\n    axum::serve(listener, app).await.unwrap();\n}\n",
        );
    } else {
        out.append(
            " service\n\n#[tokio::main]\nasync fn main() {\n    tracing_subscriber::fmt::init();\n    tracing::info!(\"starting ",
        );
        out.append(name);
        out.append("\");\n}\n");
    }
    Ok(out)
}

/// The configuration file of a newly scaffolded service; the database name
/// is the lowercased service name with dashes turned into underscores.
pub fn generate_service_config(name: &str) -> (r: AlphaResult<String>)
    ensures
        r matches Ok(t) && t@ == "# "@ + name@ + " service configuration\nservice:\n  name: "@
            + name@ + "\n  version: \"0.1.0\"\n  port: 8080\n\ndatabase:\n  url: \"postgresql://localhost/alpha_"@
            + dashes_to_underscores(lower_of(name@))
            + "\"\n\nlogging:\n  level: \"info\"\n"@,
{
    let low = to_lowercase(name);
    let db = dash_to_underscore(low.as_str());
    let mut out = String::from_str("# ");
    out.append(name);
    out.append(" service configuration\nservice:\n  name: ");
    out.append(name);
    out.append(
        "\n  version: \"0.1.0\"\n  port: 8080\n\ndatabase:\n  url: \"postgresql://localhost/alpha_",
    );
    out.append(db.as_str());
    out.append("\"\n\nlogging:\n  level: \"info\"\n");
    Ok(out)
}

/// A React component skeleton named after the component.
pub fn generate_react_component(name: &str) -> (r: AlphaResult<String>)
    ensures
        r matches Ok(t) && t@ == "import React from 'react';\nimport './"@ + lower_of(name@)
            + ".css';\n\ninterface "@ + name@ + "Props {}\n\nexport const "@ + name@
            + ": React.FC<"@ + name@
            + "Props> = (props) => {\n  return (\n    <div className=\""@ + lower_of(name@)
            + "\">\n      <h1>"@ + name@
            + " Component</h1>\n    </div>\n  );\n};\n\nexport default "@ + name@ + ";\n"@,
{
    let low = to_lowercase(name);
    let mut out = String::from_str("import React from 'react';\nimport './");
    out.append(low.as_str());
    out.append(".css';\n\ninterface ");
    out.append(name);
    out.append("Props {}\n\nexport const ");
    out.append(name);
    out.append(": React.FC<");
    out.append(name);
    out.append("Props> = (props) => {\n  return (\n    <div className=\"");
    out.append(low.as_str());
    out.append("\">\n      <h1>");
    out.append(name);
    out.append(" Component</h1>\n    </div>\n  );\n};\n\nexport default ");
    out.append(name);
    out.append(";\n");
    Ok(out)
}

/// A test skeleton for the React component of the same name.
pub fn generate_react_component_test(name: &str) -> (r: AlphaResult<String>)
    ensures
        r matches Ok(t) && t@
            == "import { render, screen } from '@testing-library/react';\nimport { "@ + name@
            + " } from './"@ + name@ + "';\n\ndescribe('"@ + name@
            + "', () => {\n  it('renders correctly', () => {\n    render(<"@ + name@
            + " />);\n    expect(screen.getByText(/"@ + name@
            + " Component/i)).toBeInTheDocument();\n  });\n});\n"@,
{
    let mut out = String::from_str(
        "import { render, screen } from '@testing-library/react';\nimport { ",
    );
    out.append(name);
    out.append(" } from './");
    out.append(name);
    out.append("';\n\ndescribe('");
    out.append(name);
    out.append("', () => {\n  it('renders correctly', () => {\n    render(<");
    out.append(name);
    out.append(" />);\n    expect(screen.getByText(/");
    out.append(name);
    out.append(" Component/i)).toBeInTheDocument();\n  });\n});\n");
    Ok(out)
}

/// A Vue component skeleton named after the component.
pub fn generate_vue_component(name: &str) -> (r: AlphaResult<String>)
    ensures
        r matches Ok(t) && t@ == "<template>\n  <div class=\""@ + lower_of(name@)
            + "\">\n    <h1>"@ + name@
            + " Component</h1>\n  </div>\n</template>\n\n<script setup lang=\"ts\"></script>\n\n<style scoped>\n."@
            + lower_of(name@) + " {\n}\n</style>\n"@,
{
    let low = to_lowercase(name);
    let mut out = String::from_str("<template>\n  <div class=\"");
    out.append(low.as_str());
    out.append("\">\n    <h1>");
    out.append(name);
    out.append(
        " Component</h1>\n  </div>\n</template>\n\n<script setup lang=\"ts\"></script>\n\n<style scoped>\n.",
    );
    out.append(low.as_str());
    out.append(" {\n}\n</style>\n");
    Ok(out)
}

} // verus!
