# psp_reborn

The rules of PSP Reborn Studio, a desktop IDE for PSP homebrew in C++ and
Lua, written in Verus and proved against their contracts. The desktop
program around them (Tauri commands, disk access, JSON) lives in `app/`.

## Layout

- `src/text.rs`: characters, UTF-8 byte lengths, trimming, decimal output.
- `src/path.rs`: Unix paths as text: pieces, components, file names,
  extensions, joining, and the facts about them that the laws use.
- `src/order.rs`: text and path orders, and a stable sort.
- `src/confine.rs`: paths given by the user, confined to a project; paths
  relative to a folder; names that make can compile.
- `src/rules.rs`: project names, item names, language/template/runtime
  choices, and which files are shown, opened, saved or protected.
- `src/templates.rs`: the example sources and the managed Makefile.
- `src/project.rs`: project configurations, the catalog, new projects.
- `src/tree.rs`, `src/files.rs`, `src/sources.rs`: folder snapshots, the
  project tree, the checks of the file manager, and the C/C++ sources.
- `src/compile.rs`: build logs, compiler diagnostics and build reports.
- `src/pbp.rs`: the `EBOOT.PBP` header check.
- `src/transfer.rs`, `src/deploy.rs`: digest-checked copies, installing on
  a PSP, the Lua runtime and the emulator.
- `src/env.rs`: the toolchain, the emulator, PSP volumes and the status
  panel.

## Laws

Besides each function's contract, the library proves, among others, that
an accepted project path joined to a folder stays strictly inside it, that
a project folder lies inside the projects folder, that the project tree
never shows hidden items, that collected sources are sorted, buildable and
give distinct objects, that the Makefile's object list holds only path
characters, that the catalog never lists a kernel-mode project, that an
accepted PBP header lists its sections in order inside the file, that the
diagnostics of two logs joined by a newline are those of each in turn, that
cutting a cut log again changes nothing, and that unknown templates give
the `hello` examples.
