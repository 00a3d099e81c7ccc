# corot-rs

Coroutines as explicit state machines. The `#[corot]` attribute (optionally
`#[corot(name = State, effect = Effects)]` to name the generated enums) turns an
`async fn` into an enum of states with `settle_wait`, `rehydrate`, getters and
a `step` method that runs the function from one suspension point to the next.

A suspension point is a typed `let` whose initializer awaits (its
pattern a name, or `_`), or an
`if … else if …` chain, `loop`, `while`, `for` (over a range literal or
`corot_rs::iter::<T>(…)`) or `match` statement with a single await in a
supported place. An `if let` scrutinee, or the initializer of a `let …
else` (whose `return;` then finishes the coroutine), awaits as
`corot_rs::val::<T>(x.await)`. Other placements are refused with an error
that says where, among them several awaits in one branch or loop body and
awaits in several match arms.

An awaited call `f(args…)` whose arguments' types can be told (literals,
or locals the coroutine keeps) is reported from `step` as
`Step::Effect(<Effect>::Call<F>(args…))`; the host performs it and hands
its result to `settle_wait`. Any other await is a settle await: the host
supplies its value through `settle_wait`. An awaited
`corot_rs::call::<C>(child)` drives the child coroutine: each `step` of the
parent steps the child, passes on its `Pending`, passes up its effects as
`<Effect>::Nested<C>(…)`, hands `settle_wait` on to it, and resumes once the
child is ready. A child that needs rehydration makes the parent's `step`
panic.

## Layout

- `src/` is the verified library.
  - `runtime.rs`: `Step`, `SkipSerde` and the type-ascription helpers that
    generated code calls.
  - `syntax.rs`: the parts of a function body the planner reads, as plain
    values with node ids.
  - `inspect.rs`, `bindings.rs`: reading awaits, literal types, patterns and
    typed `let` bindings.
  - `split.rs`: finding the suspension points of a body and handing the
    statements that follow a branch or loop to its join state.
  - `plan.rs`: the locals each state keeps, the states, the `settle_wait`
    and `rehydrate` arms and the getters.
  - `steps.rs`: the code of every arm of `step`, as a small code model.
  - `run.rs`: what that code does under any outcome of the source's
    conditions and matches, and the laws of entering and resuming points.
  - `expand.rs`: `expand_corot`, which plans a whole coroutine, and the laws
    that tie the plan to the function it came from.
  - `text.rs`: identifier text (upper camel case, generated names).
  - `for_range.rs`: a hand-written coroutine in the generated shape, with
    its behaviour stated step by step.
- `tests/`: tests of the library on concrete inputs.
- `app/`: the expansion behind the attribute, as a plain function from
  token stream to token stream (a proc-macro crate would wrap it): parsing
  with `syn`, reading the parsed function into the model, printing a plan
  with `quote`, and reporting refusals as compile errors; and a driver for
  the `for_range` coroutine.
