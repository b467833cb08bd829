# syntax_edit

Edits of Rust syntax trees, verified with Verus.

A tree is a value (`tree`), a node or token is a place in a tree (`syntax_node`), and every edit
gives a new tree. The contracts say which one, over a mathematical model of trees and places.

| module | what it holds |
| --- | --- |
| `syntax_kind` | the kinds of nodes and tokens |
| `tree`, `syntax_node` | trees, places in them and the moves between places |
| `stamp` | what tells nodes apart that look the same |
| `ast` | nodes by what they are, and the parts they have |
| `algo`, `ted`, `make` | children inserted and replaced, the whitespace between neighbours, new pieces of syntax |
| `edit` | edits of expressions, record fields, paths, use trees and match arms |
| `indent`, `text` | levels of indentation, and trees moved by them |
| `imports` | the scope of imports, their groups, and where a new one goes |
| `buffer` | short lists in an `arrayvec::ArrayVec` |
| `green` | trees of `rowan`, built and read back |
| `edit_laws`, `indent_laws`, `imports_laws` | what holds of the edits for all trees |

How two imports are merged, and how two paths are ordered, is told by the caller of `insert_use`.

`app/` applies the edits to the trees of a parser that uses `rowan`.
