use vstd::prelude::*;
use crate::files::last_index;
use crate::text::{chars_of, contains_str, has_infix, lower_of, lowercase, replace_all, replaced, same_text, slice_chars, string_from_chars};

verus! {

/// Mock file parts, by kind of file and instruction.
pub const MOCK_EXPRESS: &'static str = "const express = require('express');\nconst jwt = require('jsonwebtoken');\nconst router = express.Router();\n\n";
pub const MOCK_AUTH: &'static str = "router.post('/auth/login', (req, res) => {\n    // Mock authentication endpoint\n    const token = jwt.sign({ userId: 1 }, 'secret');\n    res.json({ token });\n});\n\n";
pub const MOCK_JEST: &'static str = "const { describe, it, expect } = require('@jest/globals');\nconst UserService = require('./userService');\n\ndescribe('UserService Tests', () => {\n    it('should createUser successfully', () => {\n        const service = new UserService();\n        expect(service.createUser).toBeDefined();\n    });\n    \n    it('should getUserById', () => {\n        const service = new UserService();\n        expect(service.getUserById).toBeDefined();\n    });\n    \n    it('should updateUser', () => {\n        const service = new UserService();\n        expect(service.updateUser).toBeDefined();\n    });\n    \n    it('should deleteUser', () => {\n        const service = new UserService();\n        expect(service.deleteUser).toBeDefined();\n    });\n});\n";
pub const MOCK_MODERN: &'static str = "const processUsers = (users) => {\n    return users\n        .filter(user => user.active === true)\n        .map(user => ({ \n            id: user.id,\n            name: user.name,\n            email: user.email\n        }));\n};\n\nconst modernExample = () => {\n    const data = [1, 2, 3, 4, 5];\n    const filtered = data.filter(n => n > 2);\n    const mapped = filtered.map(n => n * 2);\n    return mapped;\n};\n";
pub const MOCK_JS_DEFAULT: &'static str = "const mockExample = () => {\n    console.log('Mock implementation');\n};\n";
pub const MOCK_MD_HEAD: &'static str = "# ";
pub const MOCK_MD_TAIL: &'static str = "\n\n## Installation\n\n```bash\nnpm install\n```\n\n## API Documentation\n\nMock API documentation generated.\n";
pub const MOCK_PY: &'static str = "def mock_function():\n    \"\"\"Mock Python function\"\"\"\n    pass\n";
pub const MOCK_OTHER: &'static str = "// Mock content\nfunction mockExample() {\n    console.log('Mock implementation');\n}\n";
pub const MOCK_EXPORTS: &'static str = "\nmodule.exports = { mockExample };\n";
/// What follows the last dot of a file name, or the whole name.
pub open spec fn after_last_dot(f: Seq<char>) -> Seq<char> {
    match last_index(f, '.') {
        Some(i) => f.skip(i + 1),
        None => f,
    }
}

/// The title of a Markdown file: its name without ".md", with underscores
/// and dashes as spaces.
pub open spec fn md_title(f: Seq<char>) -> Seq<char> {
    replaced(replaced(replaced(f, ".md"@, ""@), "_"@, " "@), "-"@, " "@)
}

/// The body of a mock file, chosen by its extension and the instruction.
pub open spec fn mock_body(instruction: Seq<char>, filename: Seq<char>) -> Seq<char> {
    let l = lower_of(instruction);
    let e = after_last_dot(filename);
    if e == "js"@ {
        if has_infix(l, "express"@) || has_infix(l, "api"@) {
            MOCK_EXPRESS@ + if has_infix(l, "auth"@) {
                MOCK_AUTH@
            } else {
                Seq::empty()
            }
        } else if has_infix(l, "test"@) || has_infix(l, "jest"@) || has_infix(filename, "test"@) {
            MOCK_JEST@
        } else if has_infix(l, "refactor"@) || has_infix(l, "modern"@) || has_infix(l, "es6"@) {
            MOCK_MODERN@
        } else {
            MOCK_JS_DEFAULT@
        }
    } else if e == "md"@ {
        MOCK_MD_HEAD@ + md_title(filename) + MOCK_MD_TAIL@
    } else if e == "py"@ {
        MOCK_PY@
    } else {
        MOCK_OTHER@
    }
}

/// The whole mock file: a header naming the file and the instruction, the
/// body, and an export line.
pub open spec fn mock_content(instruction: Seq<char>, filename: Seq<char>) -> Seq<char> {
    "// Mock generated code for: "@ + filename + "\n// Instruction: "@ + instruction + "\n\n"@
        + mock_body(instruction, filename) + MOCK_EXPORTS@
}

fn extension_after_dot(f: &str) -> (r: String)
    ensures
        r@ == after_last_dot(f@),
{
    let c = chars_of(f);
    let mut i = c.len();
    proof {
        assert(c@.take(i as int) =~= c@);
    }
    while i > 0
        invariant
            c@ == f@,
            i <= c@.len(),
            last_index(c@, '.') == last_index(c@.take(i as int), '.'),
        decreases i,
    {
        proof {
            assert(c@.take(i as int).drop_last() =~= c@.take(i - 1));
        }
        if c[i - 1] == '.' {
            proof {
                assert(c@.take(i as int).last() == c@[i - 1]);
                assert(last_index(c@, '.') == Some(i - 1));
            }
            let n = c.len();
            let tail = slice_chars(c.as_slice(), i, n);
            assert(tail@ =~= c@.skip(i as int));
            return string_from_chars(tail.as_slice());
        }
        i = i - 1;
    }
    f.to_owned()
}

/// Placeholder file content used instead of a model's answer when running
/// offline.
pub fn generate_mock_content(instruction: &str, filename: &str) -> (r: String)
    ensures
        r@ == mock_content(instruction@, filename@),
{
    let l = lowercase(instruction);
    let lo = l.as_str();
    let e = extension_after_dot(filename);
    let mut content = "// Mock generated code for: ".to_owned();
    content.append(filename);
    content.append("\n// Instruction: ");
    content.append(instruction);
    content.append("\n\n");
    let ghost head = content@;
    if same_text(e.as_str(), "js") {
        if contains_str(lo, "express") || contains_str(lo, "api") {
            content.append(MOCK_EXPRESS);
            if contains_str(lo, "auth") {
                content.append(MOCK_AUTH);
            }
        } else if contains_str(lo, "test") || contains_str(lo, "jest") || contains_str(filename, "test") {
            content.append(MOCK_JEST);
        } else if contains_str(lo, "refactor") || contains_str(lo, "modern") || contains_str(lo, "es6") {
            content.append(MOCK_MODERN);
        } else {
            content.append(MOCK_JS_DEFAULT);
        }
    } else if same_text(e.as_str(), "md") {
        proof {
            reveal_strlit(".md");
            reveal_strlit("_");
            reveal_strlit("-");
        }
        let t1 = replace_all(filename, ".md", "");
        let t2 = replace_all(t1.as_str(), "_", " ");
        let t3 = replace_all(t2.as_str(), "-", " ");
        content.append(MOCK_MD_HEAD);
        content.append(t3.as_str());
        content.append(MOCK_MD_TAIL);
    } else if same_text(e.as_str(), "py") {
        content.append(MOCK_PY);
    } else {
        content.append(MOCK_OTHER);
    }
    content.append(MOCK_EXPORTS);
    proof {
        assert(content@ =~= mock_content(instruction@, filename@));
    }
    content
}

} // verus!
