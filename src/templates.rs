use vstd::prelude::*;
use crate::text::{replace_all, replaced, same_text};
use crate::config::{first_key, lemma_first_key_is};

verus! {

/// A file a template writes; `path` and `content` may hold `{{name}}`
/// placeholders.
#[derive(Debug)]
pub struct TemplateFile {
    pub path: String,
    pub content: String,
    pub executable: bool,
}

/// A value a template asks for.
#[derive(Debug)]
pub struct TemplateVariable {
    pub name: String,
    pub description: String,
    pub default_value: Option<String>,
    pub required: bool,
}

/// Values that fill a template's placeholders.
#[derive(Debug)]
pub struct TemplateContext {
    pub variables: Vec<(String, String)>,
    pub project_name: String,
    pub author: String,
    pub timestamp: String,
}

/// A project skeleton. Script names are unique.
#[derive(Debug)]
pub struct Template {
    pub name: String,
    pub description: String,
    pub language: String,
    pub files: Vec<TemplateFile>,
    pub variables: Vec<TemplateVariable>,
    pub dependencies: Vec<String>,
    pub scripts: Vec<(String, String)>,
}

impl Template {
    /// An empty template.
    pub fn new(name: &str, description: &str, language: &str) -> (r: Template)
        ensures
            r.name@ == name@,
            r.description@ == description@,
            r.language@ == language@,
            r.files@.len() == 0,
            r.variables@.len() == 0,
            r.dependencies@.len() == 0,
            r.scripts@.len() == 0,
    {
        Template {
            name: name.to_owned(),
            description: description.to_owned(),
            language: language.to_owned(),
            files: Vec::new(),
            variables: Vec::new(),
            dependencies: Vec::new(),
            scripts: Vec::new(),
        }
    }

    /// Adds a plain file.
    pub fn add_file(self, path: &str, content: &str) -> (r: Template)
        ensures
            r.files@.drop_last() == self.files@,
            r.files@.len() == self.files@.len() + 1,
            r.files@.last().path@ == path@,
            r.files@.last().content@ == content@,
            !r.files@.last().executable,
            r.name == self.name && r.variables == self.variables && r.dependencies == self.dependencies
                && r.scripts == self.scripts,
    {
        let mut t = self;
        t.files.push(TemplateFile { path: path.to_owned(), content: content.to_owned(), executable: false });
        proof {
            assert(t.files@.drop_last() =~= self.files@);
        }
        t
    }

    /// Adds a file that is made executable.
    pub fn add_executable_file(self, path: &str, content: &str) -> (r: Template)
        ensures
            r.files@.drop_last() == self.files@,
            r.files@.len() == self.files@.len() + 1,
            r.files@.last().path@ == path@,
            r.files@.last().content@ == content@,
            r.files@.last().executable,
            r.name == self.name && r.variables == self.variables && r.dependencies == self.dependencies
                && r.scripts == self.scripts,
    {
        let mut t = self;
        t.files.push(TemplateFile { path: path.to_owned(), content: content.to_owned(), executable: true });
        proof {
            assert(t.files@.drop_last() =~= self.files@);
        }
        t
    }

    /// Declares a variable.
    pub fn add_variable(self, name: &str, description: &str, default: Option<&str>, required: bool) -> (r: Template)
        ensures
            r.variables@.drop_last() == self.variables@,
            r.variables@.len() == self.variables@.len() + 1,
            r.variables@.last().name@ == name@,
            r.variables@.last().description@ == description@,
            match default {
                Some(d) => r.variables@.last().default_value matches Some(v) && v@ == d@,
                None => r.variables@.last().default_value is None,
            },
            r.variables@.last().required == required,
            r.name == self.name && r.files == self.files && r.dependencies == self.dependencies
                && r.scripts == self.scripts,
    {
        let mut t = self;
        let default_value = match default {
            Some(d) => Some(d.to_owned()),
            None => None,
        };
        t.variables.push(TemplateVariable { name: name.to_owned(), description: description.to_owned(), default_value, required });
        proof {
            assert(t.variables@.drop_last() =~= self.variables@);
        }
        t
    }

    /// Adds a dependency.
    pub fn add_dependency(self, dep: &str) -> (r: Template)
        ensures
            r.dependencies@.drop_last() == self.dependencies@,
            r.dependencies@.len() == self.dependencies@.len() + 1,
            r.dependencies@.last()@ == dep@,
            r.name == self.name && r.files == self.files && r.variables == self.variables
                && r.scripts == self.scripts,
    {
        let mut t = self;
        t.dependencies.push(dep.to_owned());
        proof {
            assert(t.dependencies@.drop_last() =~= self.dependencies@);
        }
        t
    }

    /// Sets a script: replaces the command of a script with this name, or
    /// adds one.
    pub fn add_script(self, name: &str, command: &str) -> (r: Template)
        ensures
            match first_key(self.scripts@, name@) {
                Some(i) => {
                    &&& r.scripts@.len() == self.scripts@.len()
                    &&& r.scripts@[i].0@ == name@ && r.scripts@[i].1@ == command@
                    &&& forall|j: int| 0 <= j < r.scripts@.len() && j != i ==> r.scripts@[j] == self.scripts@[j]
                },
                None => {
                    &&& r.scripts@.drop_last() == self.scripts@
                    &&& r.scripts@.len() == self.scripts@.len() + 1
                    &&& r.scripts@.last().0@ == name@ && r.scripts@.last().1@ == command@
                },
            },
            r.name == self.name && r.files == self.files && r.variables == self.variables
                && r.dependencies == self.dependencies,
    {
        let mut t = self;
        let mut i: usize = 0;
        while i < t.scripts.len()
            invariant
                t.scripts == self.scripts,
                t.name == self.name && t.files == self.files && t.variables == self.variables
                    && t.dependencies == self.dependencies,
                i <= t.scripts@.len(),
                forall|j: int| 0 <= j < i ==> t.scripts@[j].0@ != name@,
            decreases t.scripts@.len() - i,
        {
            if same_text(t.scripts[i].0.as_str(), name) {
                proof {
                    lemma_first_key_is(self.scripts@, name@, i as int);
                }
                t.scripts.set(i, (name.to_owned(), command.to_owned()));
                return t;
            }
            i = i + 1;
        }
        proof {
            assert(!(exists|j: int| 0 <= j < self.scripts@.len() && self.scripts@[j].0@ == name@));
        }
        t.scripts.push((name.to_owned(), command.to_owned()));
        proof {
            assert(t.scripts@.drop_last() =~= self.scripts@);
        }
        t
    }
}

/// The templates that ship with the tool.
pub fn get_builtin_templates() -> (r: Vec<Template>)
    ensures
        r@.len() == 5,
        r@[0].name@ == "rust-cli"@,
        r@[1].name@ == "node-express"@,
        r@[2].name@ == "python-fastapi"@,
        r@[3].name@ == "react-component"@,
        r@[4].name@ == "typescript-library"@,
{
    vec![
        create_rust_cli_template(),
        create_node_express_template(),
        create_python_fastapi_template(),
        create_react_component_template(),
        create_typescript_library_template(),
    ]
}

fn create_rust_cli_template() -> (r: Template)
    ensures
        r.name@ == "rust-cli"@,
{
    Template::new("rust-cli", "Rust CLI application with clap", "rust")
        .add_variable("app_name", "Application name", Some("my-cli"), true)
        .add_variable("description", "Application description", Some("A CLI application"), false)
        .add_dependency("clap")
        .add_dependency("anyhow")
        .add_dependency("tokio")
        .add_file("Cargo.toml", r#"[package]
name = "{{app_name}}"
version = "0.1.0"
edition = "2021"
description = "{{description}}"
authors = ["{{author}}"]

[dependencies]
clap = { version = "4.0", features = ["derive"] }
anyhow = "1.0"
tokio = { version = "1.0", features = ["full"] }
"#)
        .add_file("src/main.rs", r#"use clap::{Parser, Subcommand};
use anyhow::Result;

#[derive(Parser)]
#[command(name = "{{app_name}}")]
#[command(about = "{{description}}")]
struct Cli {
#[command(subcommand)]
command: Commands,
}

#[derive(Subcommand)]
enum Commands {
/// Example command
Hello {
    /// Name to greet
    name: String,
},
}

#[tokio::main]
async fn main() -> Result<()> {
let cli = Cli::parse();

match cli.command {
    Commands::Hello { name } => {
        println!("Hello, {}!", name);
    }
}

Ok(())
}
"#)
        .add_file("README.md", r#"# {{project_name}}

{{description}}

## Installation

```bash
cargo install --path .
```

## Usage

```bash
{{app_name}} hello "World"
```

## License

MIT License
"#)
        .add_script("build", "cargo build")
        .add_script("test", "cargo test")
        .add_script("run", "cargo run")
}

fn create_node_express_template() -> (r: Template)
    ensures
        r.name@ == "node-express"@,
{
    Template::new("node-express", "Node.js Express API server", "javascript")
        .add_variable("app_name", "Application name", Some("my-api"), true)
        .add_variable("port", "Server port", Some("3000"), false)
        .add_file("package.json", r#"{
  "name": "{{app_name}}",
  "version": "1.0.0",
  "description": "Express API server",
  "main": "server.js",
  "scripts": {
"start": "node server.js",
"dev": "nodemon server.js",
"test": "jest"
  },
  "dependencies": {
"express": "^4.18.0",
"cors": "^2.8.5",
"helmet": "^6.0.0",
"morgan": "^1.10.0"
  },
  "devDependencies": {
"nodemon": "^2.0.20",
"jest": "^29.0.0"
  },
  "author": "{{author}}",
  "license": "MIT"
}
"#)
        .add_file("server.js", r#"const express = require('express');
const cors = require('cors');
const helmet = require('helmet');
const morgan = require('morgan');

const app = express();
const PORT = process.env.PORT || {{port}};

// Middleware
app.use(helmet());
app.use(cors());
app.use(morgan('combined'));
app.use(express.json());

// Routes
app.get('/', (req, res) => {
res.json({ message: 'Welcome to {{app_name}} API' });
});

app.get('/health', (req, res) => {
res.json({ status: 'healthy', timestamp: new Date().toISOString() });
});

// Error handling
app.use((err, req, res, next) => {
console.error(err.stack);
res.status(500).json({ error: 'Something went wrong!' });
});

app.listen(PORT, () => {
console.log(`{{app_name}} server running on port ${PORT}`);
});
"#)
        .add_file(".gitignore", r#"node_modules/
.env
.env.local
npm-debug.log*
yarn-debug.log*
yarn-error.log*
.DS_Store
"#)
        .add_script("start", "npm start")
        .add_script("dev", "npm run dev")
        .add_script("test", "npm test")
}

fn create_python_fastapi_template() -> (r: Template)
    ensures
        r.name@ == "python-fastapi"@,
{
    Template::new("python-fastapi", "Python FastAPI web service", "python")
        .add_variable("app_name", "Application name", Some("my-api"), true)
        .add_variable("description", "API description", Some("FastAPI web service"), false)
        .add_file("requirements.txt", r#"fastapi==0.104.1
uvicorn[standard]==0.24.0
pydantic==2.5.0
python-multipart==0.0.6
"#)
        .add_file("main.py", r#"from fastapi import FastAPI, HTTPException
from pydantic import BaseModel
from typing import List, Optional
import uvicorn

app = FastAPI(
title="{{app_name}}",
description="{{description}}",
version="1.0.0"
)

class Item(BaseModel):
id: Optional[int] = None
name: str
description: Optional[str] = None

# In-memory storage (use a database in production)
items: List[Item] = []

@app.get("/")
async def root():
return {"message": "Welcome to {{app_name}}"}

@app.get("/health")
async def health_check():
return {"status": "healthy"}

@app.get("/items", response_model=List[Item])
async def get_items():
return items

@app.post("/items", response_model=Item)
async def create_item(item: Item):
item.id = len(items) + 1
items.append(item)
return item

@app.get("/items/{item_id}", response_model=Item)
async def get_item(item_id: int):
for item in items:
    if item.id == item_id:
        return item
raise HTTPException(status_code=404, detail="Item not found")

if __name__ == "__main__":
uvicorn.run(app, host="0.0.0.0", port=8000)
"#)
        .add_file("README.md", r#"# {{project_name}}

{{description}}

## Setup

```bash
pip install -r requirements.txt
```

## Run

```bash
python main.py
```

Or with uvicorn:

```bash
uvicorn main:app --reload
```

## API Documentation

Visit http://localhost:8000/docs for interactive API documentation.
"#)
        .add_script("start", "python main.py")
        .add_script("dev", "uvicorn main:app --reload")
}

fn create_react_component_template() -> (r: Template)
    ensures
        r.name@ == "react-component"@,
{
    Template::new("react-component", "React functional component with hooks", "javascript")
        .add_variable("component_name", "Component name", Some("MyComponent"), true)
        .add_variable("use_typescript", "Use TypeScript", Some("false"), false)
        .add_file("{{component_name}}.jsx", r#"import React, { useState, useEffect } from 'react';
import PropTypes from 'prop-types';
import './{{component_name}}.css';

const {{component_name}} = ({ title, onAction }) => {
const [state, setState] = useState(null);

useEffect(() => {
    // Component initialization
    console.log('{{component_name}} mounted');
    
    return () => {
        // Cleanup
        console.log('{{component_name}} unmounted');
    };
}, []);

const handleClick = () => {
    if (onAction) {
        onAction('button clicked');
    }
};

return (
    <div className="{{component_name}}">
        <h2>{title}</h2>
        <button onClick={handleClick}>
            Action
        </button>
        {state && <p>State: {state}</p>}
    </div>
);
};

{{component_name}}.propTypes = {
title: PropTypes.string.isRequired,
onAction: PropTypes.func,
};

{{component_name}}.defaultProps = {
onAction: null,
};

export default {{component_name}};
"#)
        .add_file("{{component_name}}.css", r#".{{component_name}} {
padding: 1rem;
border: 1px solid #ddd;
border-radius: 8px;
background-color: #f9f9f9;
}

.{{component_name}} h2 {
margin-top: 0;
color: #333;
}

.{{component_name}} button {
padding: 0.5rem 1rem;
background-color: #007bff;
color: white;
border: none;
border-radius: 4px;
cursor: pointer;
transition: background-color 0.2s;
}

.{{component_name}} button:hover {
background-color: #0056b3;
}
"#)
        .add_file("{{component_name}}.test.jsx", r#"import React from 'react';
import { render, screen, fireEvent } from '@testing-library/react';
import {{component_name}} from './{{component_name}}';

describe('{{component_name}}', () => {
test('renders with title', () => {
    render(<{{component_name}} title="Test Title" />);
    expect(screen.getByText('Test Title')).toBeInTheDocument();
});

test('calls onAction when button clicked', () => {
    const mockAction = jest.fn();
    render(<{{component_name}} title="Test" onAction={mockAction} />);
    
    fireEvent.click(screen.getByText('Action'));
    expect(mockAction).toHaveBeenCalledWith('button clicked');
});
});
"#)
}

fn create_typescript_library_template() -> (r: Template)
    ensures
        r.name@ == "typescript-library"@,
{
    Template::new("typescript-library", "TypeScript library with build setup", "typescript")
        .add_variable("lib_name", "Library name", Some("my-lib"), true)
        .add_variable("description", "Library description", Some("A TypeScript library"), false)
        .add_file("package.json", r#"{
  "name": "{{lib_name}}",
  "version": "1.0.0",
  "description": "{{description}}",
  "main": "dist/index.js",
  "types": "dist/index.d.ts",
  "scripts": {
"build": "tsc",
"test": "jest",
"lint": "eslint src/**/*.ts",
"prepare": "npm run build"
  },
  "devDependencies": {
"typescript": "^5.0.0",
"@types/jest": "^29.0.0",
"jest": "^29.0.0",
"ts-jest": "^29.0.0",
"eslint": "^8.0.0",
"@typescript-eslint/eslint-plugin": "^6.0.0",
"@typescript-eslint/parser": "^6.0.0"
  },
  "author": "{{author}}",
  "license": "MIT"
}
"#)
        .add_file("tsconfig.json", r#"{
  "compilerOptions": {
"target": "ES2020",
"module": "commonjs",
"lib": ["ES2020"],
"outDir": "./dist",
"rootDir": "./src",
"strict": true,
"esModuleInterop": true,
"skipLibCheck": true,
"forceConsistentCasingInFileNames": true,
"declaration": true,
"declarationMap": true,
"sourceMap": true
  },
  "include": ["src/**/*"],
  "exclude": ["node_modules", "dist", "**/*.test.ts"]
}
"#)
        .add_file("src/index.ts", r#"/**
 * {{description}}
 * @author {{author}}
 */

export interface Config {
debug?: boolean;
timeout?: number;
}

export class {{lib_name}} {
private config: Config;

constructor(config: Config = {}) {
    this.config = {
        debug: false,
        timeout: 5000,
        ...config
    };
}

public hello(name: string): string {
    if (this.config.debug) {
        console.log(`Greeting ${name}`);
    }
    return `Hello, ${name}!`;
}

public getConfig(): Config {
    return { ...this.config };
}
}

export default {{lib_name}};
"#)
        .add_file("src/index.test.ts", r#"import {{lib_name}} from './index';

describe('{{lib_name}}', () => {
test('should create instance', () => {
    const lib = new {{lib_name}}();
    expect(lib).toBeInstanceOf({{lib_name}});
});

test('should greet user', () => {
    const lib = new {{lib_name}}();
    expect(lib.hello('World')).toBe('Hello, World!');
});

test('should accept config', () => {
    const lib = new {{lib_name}}({ debug: true, timeout: 1000 });
    const config = lib.getConfig();
    expect(config.debug).toBe(true);
    expect(config.timeout).toBe(1000);
});
});
"#)
        .add_script("build", "npm run build")
        .add_script("test", "npm test")
        .add_script("lint", "npm run lint")
}


/// `text` with `{{key}}` replaced by the value of each of `vars`, in order.
pub open spec fn with_variables(text: Seq<char>, vars: Seq<(String, String)>) -> Seq<char>
    decreases vars.len(),
{
    if vars.len() == 0 {
        text
    } else {
        replaced(
            with_variables(text, vars.drop_last()),
            "{{"@ + vars.last().0@ + "}}"@,
            vars.last().1@,
        )
    }
}

/// A template text with its placeholders filled: project name, author,
/// timestamp, year and date, then the custom variables.
pub open spec fn rendered(
    text: Seq<char>,
    ctx: TemplateContext,
    year: Seq<char>,
    date: Seq<char>,
) -> Seq<char> {
    let t1 = replaced(text, "{{project_name}}"@, ctx.project_name@);
    let t2 = replaced(t1, "{{author}}"@, ctx.author@);
    let t3 = replaced(t2, "{{timestamp}}"@, ctx.timestamp@);
    let t4 = replaced(t3, "{{year}}"@, year);
    let t5 = replaced(t4, "{{date}}"@, date);
    with_variables(t5, ctx.variables@)
}

/// A year as `%Y` writes it (at least four characters) and a date as
/// `%Y-%m-%d` writes it (a year, then two-digit month and day, each after
/// a dash).
pub open spec fn year_and_date_shape(year: Seq<char>, date: Seq<char>) -> bool {
    &&& year.len() >= 4
    &&& date.len() >= 10
    &&& date[date.len() - 3] == '-'
    &&& date[date.len() - 6] == '-'
}

/// Relies on `chrono::Utc::now` and `DateTime::format`: the current UTC
/// time written with a strftime pattern; only patterns that `format`
/// accepts are passed. `%Y` writes at least four characters (four digits
/// for years 0 to 9999, else a sign and the digits); `%m` and `%d` write
/// two zero-padded digits.
#[verifier::external_body]
fn utc_now_formatted(fmt: &str) -> (r: String)
    requires
        fmt@ == "%Y"@ || fmt@ == "%Y-%m-%d"@,
    ensures
        fmt@ == "%Y"@ ==> r@.len() >= 4,
        fmt@ == "%Y-%m-%d"@ ==> (r@.len() >= 10 && r@[r@.len() - 3] == '-' && r@[r@.len() - 6]
            == '-'),
{
    chrono::Utc::now().format(fmt).to_string()
}

impl Template {
    /// Fills a template text for a context, with the given year and date.
    pub fn render_template_at(&self, template: &str, context: &TemplateContext, year: &str, date: &str) -> (r: String)
        ensures
            r@ == rendered(template@, *context, year@, date@),
    {
        proof {
            reveal_strlit("{{project_name}}");
            reveal_strlit("{{author}}");
            reveal_strlit("{{timestamp}}");
            reveal_strlit("{{year}}");
            reveal_strlit("{{date}}");
        }
        let r1 = replace_all(template, "{{project_name}}", context.project_name.as_str());
        let r2 = replace_all(r1.as_str(), "{{author}}", context.author.as_str());
        let r3 = replace_all(r2.as_str(), "{{timestamp}}", context.timestamp.as_str());
        let r4 = replace_all(r3.as_str(), "{{year}}", year);
        let mut result = replace_all(r4.as_str(), "{{date}}", date);
        let ghost t5 = result@;
        let mut i: usize = 0;
        while i < context.variables.len()
            invariant
                i <= context.variables@.len(),
                result@ == with_variables(t5, context.variables@.take(i as int)),
            decreases context.variables@.len() - i,
        {
            let mut placeholder = "{{".to_owned();
            placeholder.append(context.variables[i].0.as_str());
            placeholder.append("}}");
            proof {
                reveal_strlit("{{");
                reveal_strlit("}}");
                let t = context.variables@.take(i + 1);
                assert(t.drop_last() =~= context.variables@.take(i as int));
            }
            result = replace_all(result.as_str(), placeholder.as_str(), context.variables[i].1.as_str());
            i = i + 1;
        }
        proof {
            assert(context.variables@.take(context.variables@.len() as int) =~= context.variables@);
        }
        result
    }

    /// Fills a template text for a context, with today's UTC year and date.
    pub fn render_template(&self, template: &str, context: &TemplateContext) -> (r: String)
        ensures
            exists|year: Seq<char>, date: Seq<char>|
                year_and_date_shape(year, date) && r@ == rendered(template@, *context, year, date),
    {
        proof {
            reveal_strlit("%Y");
            reveal_strlit("%Y-%m-%d");
        }
        let year = utc_now_formatted("%Y");
        let date = utc_now_formatted("%Y-%m-%d");
        proof {
            assert("%Y"@ != "%Y-%m-%d"@) by {
                assert("%Y"@.len() != "%Y-%m-%d"@.len());
            }
            assert(year_and_date_shape(year@, date@));
        }
        let r = self.render_template_at(template, context, year.as_str(), date.as_str());
        proof {
            assert(r@ == rendered(template@, *context, year@, date@));
        }
        r
    }
}

/// The built-in template with the given name.
pub fn find_template(name: &str) -> (r: Option<Template>)
    ensures
        r matches Some(t) ==> t.name@ == name@,
        r is None ==> !(name@ == "rust-cli"@ || name@ == "node-express"@ || name@ == "python-fastapi"@
            || name@ == "react-component"@ || name@ == "typescript-library"@),
{
    let mut all = get_builtin_templates();
    let ghost names = seq!["rust-cli"@, "node-express"@, "python-fastapi"@, "react-component"@, "typescript-library"@];
    while all.len() > 0
        invariant
            names.len() == 5,
            all@.len() <= 5,
            forall|j: int| 0 <= j < all@.len() ==> #[trigger] all@[j].name@ == names[j],
            forall|j: int| all@.len() <= j < 5 ==> #[trigger] names[j] != name@,
        decreases all@.len(),
    {
        let ghost before = all@;
        let t = all.pop().unwrap();
        proof {
            assert(all@ =~= before.drop_last());
            assert forall|j: int| 0 <= j < all@.len() implies #[trigger] all@[j].name@ == names[j] by {
                assert(all@[j] == before[j]);
            }
        }
        if same_text(t.name.as_str(), name) {
            return Some(t);
        }
    }
    None
}

} // verus!
