# scheme_to_rust

Closure conversion for a small Scheme-like language, verified with Verus.

- `src/common.rs`: operators, types, expressions and typing environments, each
  with a mathematical model (`SpecType`, `SpecExpr`).
- `src/type_checker.rs`: the type checker (`type_check`, `tc_with_env`) and its
  specification `type_of`.
- `src/gensym.rs`: the counter that names closure environments `env0`, `env1`, ...
- `src/closure_convert.rs`: closure conversion (`closure_convert`), free variables
  and substitution, specified by `cc_spec`.
- `src/substitution.rs`: proved properties of free variables and substitution.
- `src/properties.rs`: proved properties of closure conversion: when it fails;
  that it keeps free variables; that each lambda becomes one closure whose
  lambda takes the environment first; and that the closure made for a lambda is
  closed when it is made.
- `src/env_names.rs`: the environment names of one conversion are distinct and
  drawn from the counter's range.

"Free variables" here are those of `free_vars`, which, like the conversion
itself, does not count the values of a `Let` and does not let a `Let` shadow a
name under substitution. A closure is closed when it is made, but an enclosing
lambda's conversion may later substitute into it: where an inner lambda's body
rebinds a captured name with a `Let`, the substitution reaches under that `Let`,
and the inner lambda then reads the enclosing environment's name. So in the final
result, nested closures need not be closed.
- `app/`: a process-wide counter around the library and an error type with the
  standard error traits.

## Collections

Expressions hold their children in `Vec`, not in a persistent vector such as
`im_rc::Vector`. Every specification here (free variables, substitution, the
conversion itself) is a recursive function over the children of an expression,
and Verus must see that each recursive call is on a smaller value. Through
`Vec` it does: a vector decreases to its view and a sequence to its elements.
An `im_rc::Vector` can only be declared to Verus as an opaque type: declared
with its type parameter, it may not hold the enum it is part of (Verus refuses
the recursion as non-positive); held in an opaque field of a struct of the
crate, its contents are reachable only through a name for them, and Verus then
cannot prove that these recursive functions terminate.
